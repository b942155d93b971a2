//! The matrix itself: construction, text placement, the convergence step and
//! the frame that shows it.

use vstd::prelude::*;
use crate::error::MatrixError;
use crate::model::{lemma_offset_in_range, lemma_size_fits, DrawInstruction, MatrixView};
use crate::probability::Probability;
use crate::random::RandomSource;
use crate::text::{bounding_box, column_of, glyphs, lemma_rows_ascend, row_of, LINE_BREAK};
use crate::vocabulary::Vocabulary;

verus! {

/// A grid of glyphs that shift at random until each shows its target.
pub struct TextShiftMatrix {
    width: u16,
    height: u16,
    cells: Vec<char>,
    targetcells: Vec<char>,
    vocabulary: Vocabulary,
    probability: Probability,
    defaulttarget: char,
}

impl View for TextShiftMatrix {
    type V = MatrixView;

    closed spec fn view(&self) -> MatrixView {
        MatrixView {
            width: self.width as nat,
            height: self.height as nat,
            cells: self.cells@,
            targets: self.targetcells@,
            vocabulary: self.vocabulary@,
            probability: self.probability,
            defaulttarget: self.defaulttarget,
        }
    }
}

impl TextShiftMatrix {
    /// The matrix is one that `new` can have made and the other operations
    /// can have changed.
    pub open spec fn wf(&self) -> bool {
        self@.wf()
    }

    /// A matrix of `width` columns and `height` rows whose cells all have the
    /// target `defaulttarget` and show noise: for each cell in turn, by offset,
    /// one value is drawn below the size of the vocabulary, and the cell shows
    /// the glyph of the vocabulary at that index. The vocabulary is made of
    /// the glyphs of `vocabulary` and of `defaulttarget`.
    ///
    /// A grid without cells is refused first, then a fraction that is no
    /// probability; nothing is drawn in either case.
    pub fn new<R: RandomSource>(
        width: u16,
        height: u16,
        probability: Probability,
        vocabulary: &str,
        defaulttarget: char,
        rng: &mut R,
    ) -> (made: Result<Self, MatrixError>)
        ensures
            width == 0 || height == 0 ==> made == Err::<Self, MatrixError>(
                MatrixError::InvalidDimensions,
            ),
            width > 0 && height > 0 && !probability.valid() ==> made == Err::<Self, MatrixError>(
                MatrixError::InvalidProbability,
            ),
            width > 0 && height > 0 && probability.valid() ==> made is Ok,
            made is Err ==> final(rng).drawn() == old(rng).drawn(),
            made is Ok ==> {
                let m = made->Ok_0;
                let draws = final(rng).drawn().skip(old(rng).drawn().len() as int);
                &&& m.wf()
                &&& m@.width == width
                &&& m@.height == height
                &&& m@.probability == probability
                &&& m@.defaulttarget == defaulttarget
                &&& forall|c: char|
                    m@.vocabulary.contains(c) <==> (c == defaulttarget || vocabulary@.contains(c))
                &&& m@.blank()
                &&& m@.noisy()
                &&& old(rng).drawn().is_prefix_of(final(rng).drawn())
                &&& m@.filled_by(draws)
            },
    {
        if width == 0 || height == 0 {
            return Err(MatrixError::InvalidDimensions);
        }
        if !probability.is_valid() {
            return Err(MatrixError::InvalidProbability);
        }
        let text = glyphs(vocabulary);
        let vocabulary = Vocabulary::collect(&text, defaulttarget);
        assert(vocabulary@.len() > 0) by {
            assert(vocabulary@.contains(defaulttarget));
        }
        proof {
            lemma_size_fits(width as int, height as int);
        }
        let size: usize = width as usize * height as usize;
        let choices: u64 = vocabulary.len() as u64;
        let mut cells: Vec<char> = Vec::new();
        let mut targetcells: Vec<char> = Vec::new();
        let ghost start = rng.drawn();
        for i in 0..size
            invariant
                choices == vocabulary@.len(),
                0 < choices <= usize::MAX,
                cells@.len() == i,
                targetcells@.len() == i,
                start.is_prefix_of(rng.drawn()),
                rng.drawn().len() == start.len() + i,
                forall|j: int| 0 <= j < i ==> targetcells@[j] == defaulttarget,
                forall|j: int| 0 <= j < i ==> #[trigger] rng.drawn()[start.len() + j] < choices,
                forall|j: int|
                    0 <= j < i ==> #[trigger] cells@[j] == vocabulary@[rng.drawn()[start.len()
                        + j] as int],
        {
            let ghost before = rng.drawn();
            let choice = rng.draw_below(choices);
            assert(forall|j: int| 0 <= j < before.len() ==> rng.drawn()[j] == before[j]);
            cells.push(vocabulary.glyph(choice as usize));
            targetcells.push(defaulttarget);
        }
        let m = TextShiftMatrix {
            width,
            height,
            cells,
            targetcells,
            vocabulary,
            probability,
            defaulttarget,
        };
        proof {
            let draws = rng.drawn().skip(start.len() as int);
            assert forall|i: int| 0 <= i < draws.len() implies #[trigger] draws[i]
                < m@.vocabulary.len() && m@.cells[i] == m@.vocabulary[draws[i] as int] by {
                assert(draws[i] == rng.drawn()[start.len() + i]);
            }
            assert(m@.filled_by(draws));
            m@.lemma_filled_is_noisy(draws);
        }
        Ok(m)
    }

    /// The number of columns.
    pub fn width(&self) -> (width: u16)
        ensures
            width == self@.width,
    {
        self.width
    }

    /// The number of rows.
    pub fn height(&self) -> (height: u16)
        ensures
            height == self@.height,
    {
        self.height
    }

    /// The glyphs that noise is drawn from.
    pub fn vocabulary(&self) -> (vocabulary: &Vocabulary)
        ensures
            vocabulary@ == self@.vocabulary,
    {
        &self.vocabulary
    }

    /// The probability with which a cell that does not show its target comes
    /// to show it in a tick.
    pub fn probability(&self) -> (probability: Probability)
        ensures
            probability == self@.probability,
    {
        self.probability
    }

    /// The target of every cell on which no text was written.
    pub fn defaulttarget(&self) -> (glyph: char)
        ensures
            glyph == self@.defaulttarget,
    {
        self.defaulttarget
    }

    /// The offset at which column `x`, row `y` is held, if the grid has that
    /// place.
    pub fn getindex(&self, x: u16, y: u16) -> (index: Option<usize>)
        requires
            self.wf(),
        ensures
            index == if self@.contains(x as int, y as int) {
                Some(self@.offset(x as int, y as int) as usize)
            } else {
                None
            },
            index is Some ==> index->Some_0 == self@.offset(x as int, y as int) && index->Some_0
                < self@.size(),
    {
        if x < self.width && y < self.height {
            proof {
                lemma_offset_in_range(
                    self.width as int,
                    self.height as int,
                    x as int,
                    y as int,
                );
                lemma_size_fits(self.width as int, self.height as int);
                assert(0 <= x * self.height <= x * self.height + y);
            }
            Some(x as usize * self.height as usize + y as usize)
        } else {
            None
        }
    }

    /// The glyph that column `x`, row `y` shows, if the grid has that place.
    pub fn get(&self, x: u16, y: u16) -> (glyph: Option<char>)
        requires
            self.wf(),
        ensures
            glyph == if self@.contains(x as int, y as int) {
                Some(self@.cells[self@.offset(x as int, y as int)])
            } else {
                None
            },
    {
        match self.getindex(x, y) {
            Some(index) => Some(self.cells[index]),
            None => None,
        }
    }

    /// The target of column `x`, row `y`, if the grid has that place.
    pub fn gettarget(&self, x: u16, y: u16) -> (glyph: Option<char>)
        requires
            self.wf(),
        ensures
            glyph == if self@.contains(x as int, y as int) {
                Some(self@.targets[self@.offset(x as int, y as int)])
            } else {
                None
            },
    {
        match self.getindex(x, y) {
            Some(index) => Some(self.targetcells[index]),
            None => None,
        }
    }

    /// Writes `text` into the targets so that it stands in the middle of the
    /// grid: the box that the text fills, cut down to the grid, is centred, and
    /// the text is written from the box's upper left corner. What the layout
    /// puts outside the grid is left out.
    pub fn printcenter(&mut self, text: &str)
        requires
            old(self).wf(),
        ensures
            final(self).wf(),
            final(self)@ == (MatrixView { targets: final(self)@.targets, ..old(self)@ }),
            old(self)@.placed(
                old(self)@.centered_column(text@),
                old(self)@.centered_row(text@),
                text@,
                final(self)@.targets,
            ),
    {
        let text = glyphs(text);
        let (width, height) = bounding_box(&text, self.width, self.height);
        let x: u16 = self.width / 2 - width / 2;
        let y: u16 = self.height / 2 - height / 2;
        self.place(x, y, &text);
    }

    /// Writes `text` into the targets, its first glyph at column `x`, row `y`.
    /// Each glyph goes one column to the right of the one before it; a line
    /// break goes nowhere and sends the next glyph to column `x` of the next
    /// row. What the layout puts outside the grid is left out.
    pub fn print(&mut self, x: u16, y: u16, text: &str)
        requires
            old(self).wf(),
        ensures
            final(self).wf(),
            final(self)@ == (MatrixView { targets: final(self)@.targets, ..old(self)@ }),
            old(self)@.placed(x as int, y as int, text@, final(self)@.targets),
    {
        let text = glyphs(text);
        self.place(x, y, &text);
    }

    /// Writes the glyphs of `text` into the targets as `print` does.
    fn place(&mut self, x: u16, y: u16, text: &Vec<char>)
        requires
            old(self).wf(),
        ensures
            final(self).wf(),
            final(self)@ == (MatrixView { targets: final(self)@.targets, ..old(self)@ }),
            old(self)@.placed(x as int, y as int, text@, final(self)@.targets),
    {
        let mut column: usize = 0;
        let mut row: usize = 0;
        for k in 0..text.len()
            invariant
                column == column_of(text@, k as int),
                row == row_of(text@, k as int),
                self.wf(),
                self@ == (MatrixView { targets: self@.targets, ..old(self)@ }),
                old(self)@.placed_upto(x as int, y as int, text@, k as int, self@.targets),
        {
            proof {
                lemma_rows_ascend(text@, 0, k as int);
            }
            let ghost before = self@.targets;
            let ghost grid = old(self)@;
            let glyph = text[k];
            if glyph == LINE_BREAK {
                row += 1;
                column = 0;
            } else {
                if column <= (u16::MAX - x) as usize && row <= (u16::MAX - y) as usize {
                    if let Some(index) = self.getindex(x + column as u16, y + row as u16) {
                        self.targetcells.set(index, glyph);
                    }
                }
                column += 1;
            }
            proof {
                let (x, y) = (x as int, y as int);
                let after = self@.targets;
                assert forall|j: int, cell: int|
                    0 <= j < k + 1 && #[trigger] grid.falls_on(x, y, text@, j, cell) implies after[cell]
                    == text@[j] by {
                    grid.lemma_falls_within(x, y, text@, j, cell);
                    if j < k {
                        if grid.falls_on(x, y, text@, k as int, cell) {
                            grid.lemma_one_glyph_per_cell(x, y, text@, j, k as int, cell);
                        }
                        assert(after[cell] == before[cell]);
                    }
                }
                assert forall|cell: int|
                    0 <= cell < after.len() && #[trigger] grid.missed_by(
                        x,
                        y,
                        text@,
                        k + 1,
                        cell,
                    ) implies after[cell] == grid.targets[cell] by {
                    assert(!grid.falls_on(x, y, text@, k as int, cell));
                    assert(grid.missed_by(x, y, text@, k as int, cell));
                    assert(after[cell] == before[cell]);
                }
            }
        }
    }

    /// One step of the convergence. Each cell that does not show its target
    /// stands a trial, in turn by offset: with the matrix's probability the
    /// cell shows its target from now on, and else it shows a glyph picked
    /// from the vocabulary. A cell that shows its target is left alone, and
    /// nothing is drawn for it.
    ///
    /// The outcome is stated over the values that `rng` hands out during the
    /// call.
    pub fn tick<R: RandomSource>(&mut self, rng: &mut R)
        requires
            old(self).wf(),
        ensures
            final(self).wf(),
            old(rng).drawn().is_prefix_of(final(rng).drawn()),
            old(self)@.ticks_on(final(rng).drawn().skip(old(rng).drawn().len() as int)),
            final(self)@ == old(self)@.ticked(
                final(rng).drawn().skip(old(rng).drawn().len() as int),
            ),
            old(self)@.probability.certain() ==> final(self)@.done(),
            forall|cell: int| old(self)@.stuck_at(cell) ==> final(self)@.stuck_at(cell),
    {
        let ghost grid = self@;
        let ghost start = rng.drawn();
        let choices: u64 = self.vocabulary.len() as u64;
        assert(choices > 0) by {
            assert(self@.vocabulary.contains(self@.defaulttarget));
        }
        let size = self.cells.len();
        for i in 0..size
            invariant
                size == grid.cells.len(),
                grid.wf(),
                self@ == (MatrixView { cells: self@.cells, ..grid }),
                self@.cells.len() == size,
                choices == grid.vocabulary.len(),
                0 < choices <= usize::MAX,
                start.is_prefix_of(rng.drawn()),
                rng.drawn().len() - start.len() == grid.draws_before(
                    rng.drawn().skip(start.len() as int),
                    i as int,
                ),
                forall|cell: int|
                    0 <= cell < i ==> #[trigger] self@.cells[cell] == grid.cell_after(
                        rng.drawn().skip(start.len() as int),
                        cell,
                    ),
                forall|cell: int|
                    0 <= cell < i ==> #[trigger] grid.fits(
                        rng.drawn().skip(start.len() as int),
                        cell,
                    ),
                forall|cell: int| i <= cell < size ==> self@.cells[cell] == grid.cells[cell],
        {
            let ghost before = rng.drawn().skip(start.len() as int);
            let ghost shown = self@.cells;
            if self.cells[i] != self.targetcells[i] {
                if self.probability.trial(rng) {
                    self.cells.set(i, self.targetcells[i]);
                } else {
                    let pick = rng.draw_below(choices);
                    self.cells.set(i, self.vocabulary.glyph(pick as usize));
                }
            }
            proof {
                let after = rng.drawn().skip(start.len() as int);
                assert(before.is_prefix_of(after));
                assert(forall|j: int| 0 <= j < before.len() ==> before[j] == after[j]);
                grid.lemma_draws_agree(before, after, i as int, i as int);
                assert forall|cell: int| 0 <= cell < i implies #[trigger] self@.cells[cell]
                    == grid.cell_after(after, cell) by {
                    grid.lemma_cells_agree(before, after, i as int, cell);
                    assert(self@.cells[cell] == shown[cell]);
                }
                assert forall|cell: int| 0 <= cell < i implies #[trigger] grid.fits(
                    after,
                    cell,
                ) by {
                    grid.lemma_cells_agree(before, after, i as int, cell);
                    assert(grid.fits(before, cell));
                }
                let at = grid.draws_before(after, i as int);
                assert(at == before.len());
                if grid.cells[i as int] != grid.targets[i as int] {
                    assert(after[at] == rng.drawn()[start.len() + at]);
                    if !grid.probability.succeeds_on(after[at]) {
                        assert(after[at + 1] == rng.drawn()[start.len() + at + 1]);
                    }
                }
                assert(self@.cells[i as int] == grid.cell_after(after, i as int));
                assert(grid.fits(after, i as int));
            }
        }
        proof {
            let draws = rng.drawn().skip(start.len() as int);
            assert(self@.cells =~= grid.ticked(draws).cells);
            assert(grid.ticks_on(draws));
            grid.lemma_tick_keeps_shape(draws);
            if grid.probability.certain() {
                grid.lemma_certain_tick_settles(draws);
            }
            assert forall|cell: int| grid.stuck_at(cell) implies self@.stuck_at(cell) by {
                grid.lemma_stuck_stays(draws, cell);
            }
        }
    }

    /// The frame that shows the matrix: for every place of the grid, column
    /// by column and each column from its top, the glyph to draw there and
    /// whether to draw it with emphasis, which marks a cell that shows its
    /// target.
    pub fn render(&self) -> (frame: Vec<DrawInstruction>)
        requires
            self.wf(),
        ensures
            frame@ == self@.frame(),
    {
        let mut frame: Vec<DrawInstruction> = Vec::new();
        assert(frame@ =~= self@.frame().take(0 * self.height));
        for x in 0..self.width
            invariant
                self.wf(),
                frame@ == self@.frame().take(x * self.height),
        {
            for y in 0..self.height
                invariant
                    self.wf(),
                    x < self.width,
                    frame@ == self@.frame().take(x * self.height + y),
            {
                proof {
                    lemma_offset_in_range(
                        self.width as int,
                        self.height as int,
                        x as int,
                        y as int,
                    );
                }
                let target = self.gettarget(x, y).unwrap();
                let glyph = self.get(x, y).unwrap();
                frame.push(DrawInstruction { x, y, glyph, emphasized: glyph == target });
                proof {
                    let cell = x * self.height + y;
                    assert(self@.offset(x as int, y as int) == cell);
                    assert(self@.frame()[cell] == self@.instruction(cell));
                    assert(frame@[cell] == self@.frame()[cell]);
                    assert(frame@ =~= self@.frame().take(cell + 1));
                }
            }
            assert(x * self.height + self.height == (x + 1) * self.height) by (nonlinear_arith);
        }
        assert(frame@ =~= self@.frame());
        frame
    }

    /// One turn of the run: a matrix that is done is left as it is and there
    /// is nothing to show; any other takes one tick, and the frame that shows
    /// it after the tick comes back. A run calls this until nothing comes
    /// back, and shows each frame that does.
    pub fn advance<R: RandomSource>(&mut self, rng: &mut R) -> (frame: Option<
        Vec<DrawInstruction>,
    >)
        requires
            old(self).wf(),
        ensures
            final(self).wf(),
            old(rng).drawn().is_prefix_of(final(rng).drawn()),
            old(self)@.done() ==> {
                &&& frame is None
                &&& final(self)@ == old(self)@
                &&& final(rng).drawn() == old(rng).drawn()
            },
            !old(self)@.done() ==> {
                let draws = final(rng).drawn().skip(old(rng).drawn().len() as int);
                &&& old(self)@.ticks_on(draws)
                &&& final(self)@ == old(self)@.ticked(draws)
                &&& frame is Some
                &&& frame->Some_0@ == final(self)@.frame()
            },
    {
        if self.done() {
            None
        } else {
            self.tick(rng);
            Some(self.render())
        }
    }

    /// Tells whether every cell shows its target.
    pub fn done(&self) -> (done: bool)
        requires
            self.wf(),
        ensures
            done == self@.done(),
    {
        for i in 0..self.cells.len()
            invariant
                self.cells@.len() == self.targetcells@.len(),
                forall|j: int| 0 <= j < i ==> self.cells@[j] == self.targetcells@[j],
        {
            if self.cells[i] != self.targetcells[i] {
                return false;
            }
        }
        assert(self.cells@ =~= self.targetcells@);
        true
    }
}

} // verus!
