use textshift::error::MatrixError;
use textshift::matrix::TextShiftMatrix;
use textshift::model::DrawInstruction;
use textshift::probability::Probability;
use textshift::random::{RandomSource, ScriptedRandom, ThreadRandom};

const HALF: Probability = Probability { numerator: 1, denominator: 2 };
const ALWAYS: Probability = Probability { numerator: 1, denominator: 1 };
const NEVER: Probability = Probability { numerator: 0, denominator: 1 };

fn scripted(values: &[u64]) -> ScriptedRandom {
    ScriptedRandom::new(values.to_vec())
}

fn build(
    width: u16,
    height: u16,
    probability: Probability,
    vocabulary: &str,
    defaulttarget: char,
    rng: &mut ScriptedRandom,
) -> TextShiftMatrix {
    match TextShiftMatrix::new(width, height, probability, vocabulary, defaulttarget, rng) {
        Ok(matrix) => matrix,
        Err(error) => panic!("no matrix: {:?}", error),
    }
}

fn failure(
    width: u16,
    height: u16,
    probability: Probability,
    rng: &mut ScriptedRandom,
) -> Option<MatrixError> {
    TextShiftMatrix::new(width, height, probability, "abc", ' ', rng).err()
}

/// The glyphs on show, row by row, one string for each row.
fn shown(matrix: &TextShiftMatrix) -> Vec<String> {
    (0..matrix.height())
        .map(|y| (0..matrix.width()).map(|x| matrix.get(x, y).unwrap()).collect())
        .collect()
}

/// The targets, row by row, one string for each row.
fn targets(matrix: &TextShiftMatrix) -> Vec<String> {
    (0..matrix.height())
        .map(|y| (0..matrix.width()).map(|x| matrix.gettarget(x, y).unwrap()).collect())
        .collect()
}

#[test]
fn new_refuses_a_grid_without_columns() {
    let mut rng = scripted(&[1, 2, 3]);
    assert_eq!(failure(0, 5, HALF, &mut rng), Some(MatrixError::InvalidDimensions));
}

#[test]
fn new_refuses_a_grid_without_rows() {
    let mut rng = scripted(&[1, 2, 3]);
    assert_eq!(failure(5, 0, HALF, &mut rng), Some(MatrixError::InvalidDimensions));
    assert_eq!(failure(0, 0, HALF, &mut rng), Some(MatrixError::InvalidDimensions));
}

#[test]
fn new_refuses_a_probability_above_one() {
    let mut rng = scripted(&[1, 2, 3]);
    let p = Probability::new(3, 2);
    assert_eq!(failure(5, 5, p, &mut rng), Some(MatrixError::InvalidProbability));
}

#[test]
fn new_refuses_a_fraction_without_denominator() {
    let mut rng = scripted(&[1, 2, 3]);
    let p = Probability::new(0, 0);
    assert_eq!(failure(5, 5, p, &mut rng), Some(MatrixError::InvalidProbability));
}

#[test]
fn new_reports_the_dimensions_before_the_probability() {
    let mut rng = scripted(&[1, 2, 3]);
    let p = Probability::new(3, 2);
    assert_eq!(failure(0, 5, p, &mut rng), Some(MatrixError::InvalidDimensions));
}

#[test]
fn new_draws_nothing_when_it_fails() {
    let mut rng = scripted(&[11, 22, 33]);
    assert!(failure(0, 5, HALF, &mut rng).is_some());
    assert!(failure(5, 5, Probability::new(2, 1), &mut rng).is_some());
    assert_eq!(rng.draw_below(100), 11);
}

#[test]
fn new_accepts_the_ends_of_the_unit_interval() {
    let mut rng = scripted(&[0]);
    assert_eq!(failure(1, 1, ALWAYS, &mut rng), None);
    assert_eq!(failure(1, 1, NEVER, &mut rng), None);
}

#[test]
fn new_keeps_what_it_was_given() {
    let mut rng = scripted(&[0]);
    let matrix = build(7, 3, Probability::new(1, 100), "abc", '_', &mut rng);
    assert_eq!(matrix.width(), 7);
    assert_eq!(matrix.height(), 3);
    assert_eq!(matrix.probability(), Probability::new(1, 100));
    assert_eq!(matrix.defaulttarget(), '_');
    let vocabulary = matrix.vocabulary();
    assert_eq!(vocabulary.len(), 4);
    assert_eq!(
        (0..4).map(|i| vocabulary.glyph(i)).collect::<Vec<char>>(),
        vec!['_', 'a', 'b', 'c']
    );
}

#[test]
fn new_fills_the_cells_by_offset_from_the_draws() {
    // The vocabulary in order is ' ', 'a', 'b'; offsets run down the columns.
    let mut rng = scripted(&[0, 1, 2, 3, 4, 5]);
    let matrix = build(3, 2, HALF, "ba", ' ', &mut rng);
    assert_eq!(matrix.get(0, 0), Some(' '));
    assert_eq!(matrix.get(0, 1), Some('a'));
    assert_eq!(matrix.get(1, 0), Some('b'));
    assert_eq!(matrix.get(1, 1), Some(' '));
    assert_eq!(matrix.get(2, 0), Some('a'));
    assert_eq!(matrix.get(2, 1), Some('b'));
    assert_eq!(shown(&matrix), vec![" ba", "a b"]);
}

#[test]
fn new_draws_once_for_each_cell() {
    let mut rng = scripted(&[0, 1, 2, 3, 4, 5, 60, 70]);
    let _matrix = build(3, 2, HALF, "ba", ' ', &mut rng);
    assert_eq!(rng.draw_below(100), 60);
}

#[test]
fn new_sets_every_target_to_the_default() {
    let mut rng = scripted(&[5, 3, 1]);
    let matrix = build(4, 3, HALF, "xyz", '.', &mut rng);
    assert_eq!(targets(&matrix), vec!["....", "....", "...."]);
}

#[test]
fn new_shows_only_glyphs_of_the_vocabulary() {
    let mut rng = ThreadRandom::new();
    let matrix = TextShiftMatrix::new(20, 10, HALF, "abc", ' ', &mut rng).unwrap_or_else(|e| {
        panic!("no matrix: {:?}", e)
    });
    let mut cells = 0;
    for x in 0..20 {
        for y in 0..10 {
            let glyph = matrix.get(x, y).unwrap();
            assert!(matrix.vocabulary().contains(glyph));
            assert!("abc ".contains(glyph));
            assert_eq!(matrix.gettarget(x, y), Some(' '));
            cells += 1;
        }
    }
    assert_eq!(cells, 200);
    assert_eq!(matrix.render().len(), 200);
}

#[test]
fn new_holds_grids_beyond_sixteen_bits_of_cells() {
    let mut rng = scripted(&[0, 1]);
    let matrix = build(300, 300, HALF, "a", ' ', &mut rng);
    assert_eq!(matrix.getindex(299, 299), Some(89_999));
    assert_eq!(matrix.get(299, 299), Some('a'));
    assert_eq!(matrix.get(299, 298), Some(' '));
    assert_eq!(matrix.render().len(), 90_000);
}

#[test]
fn getindex_runs_down_the_columns() {
    let mut rng = scripted(&[0]);
    let matrix = build(3, 2, HALF, "", ' ', &mut rng);
    assert_eq!(matrix.getindex(0, 0), Some(0));
    assert_eq!(matrix.getindex(0, 1), Some(1));
    assert_eq!(matrix.getindex(1, 0), Some(2));
    assert_eq!(matrix.getindex(1, 1), Some(3));
    assert_eq!(matrix.getindex(2, 0), Some(4));
    assert_eq!(matrix.getindex(2, 1), Some(5));
}

#[test]
fn getindex_knows_the_edges_of_the_grid() {
    let mut rng = scripted(&[0]);
    let matrix = build(3, 2, HALF, "", ' ', &mut rng);
    assert_eq!(matrix.getindex(3, 0), None);
    assert_eq!(matrix.getindex(0, 2), None);
    assert_eq!(matrix.getindex(3, 2), None);
    assert_eq!(matrix.getindex(u16::MAX, u16::MAX), None);
    assert_eq!(matrix.get(3, 0), None);
    assert_eq!(matrix.get(0, 2), None);
    assert_eq!(matrix.gettarget(3, 0), None);
    assert_eq!(matrix.gettarget(0, 2), None);
}

#[test]
fn print_writes_a_line_to_the_right() {
    let mut rng = scripted(&[0]);
    let mut matrix = build(5, 3, HALF, "", '.', &mut rng);
    matrix.print(1, 1, "abc");
    assert_eq!(targets(&matrix), vec![".....", ".abc.", "....."]);
}

#[test]
fn print_starts_each_row_in_the_first_column_of_the_text() {
    let mut rng = scripted(&[0]);
    let mut matrix = build(6, 4, HALF, "", '.', &mut rng);
    matrix.print(2, 1, "ab\ncde\n\nf");
    assert_eq!(targets(&matrix), vec!["......", "..ab..", "..cde.", "......"]);
}

#[test]
fn print_leaves_out_what_falls_off_the_grid() {
    let mut rng = scripted(&[0]);
    let mut matrix = build(4, 2, HALF, "", '.', &mut rng);
    matrix.print(2, 0, "abcdef\nghijkl\nmnop");
    assert_eq!(targets(&matrix), vec!["..ab", "..gh"]);
}

#[test]
fn print_outside_the_grid_changes_nothing() {
    let mut rng = scripted(&[0]);
    let mut matrix = build(4, 2, HALF, "", '.', &mut rng);
    matrix.print(4, 0, "abc");
    matrix.print(0, 2, "abc");
    matrix.print(u16::MAX, u16::MAX, "abc\ndef");
    assert_eq!(targets(&matrix), vec!["....", "...."]);
}

#[test]
fn print_comes_back_onto_the_grid_after_a_long_row() {
    let mut rng = scripted(&[0]);
    let mut matrix = build(3, 3, HALF, "", '.', &mut rng);
    matrix.print(0, 0, "abcdefgh\nij");
    assert_eq!(targets(&matrix), vec!["abc", "ij.", "..."]);
}

#[test]
fn print_leaves_the_cells_alone() {
    let mut rng = scripted(&[0, 1, 2, 1]);
    let mut matrix = build(2, 2, HALF, "ab", ' ', &mut rng);
    let before = shown(&matrix);
    matrix.print(0, 0, "zz\nzz");
    assert_eq!(shown(&matrix), before);
    assert_eq!(targets(&matrix), vec!["zz", "zz"]);
}

#[test]
fn print_takes_glyphs_from_outside_the_vocabulary() {
    let mut rng = scripted(&[0]);
    let mut matrix = build(3, 1, HALF, "a", ' ', &mut rng);
    matrix.print(0, 0, "é→Q");
    assert_eq!(targets(&matrix), vec!["é→Q"]);
}

#[test]
fn printcenter_centres_two_lines_on_a_square_grid() {
    let mut rng = scripted(&[0]);
    let mut matrix = build(10, 10, HALF, "", ' ', &mut rng);
    matrix.printcenter("AB\nC");
    let mut written = Vec::new();
    for x in 0..10 {
        for y in 0..10 {
            let target = matrix.gettarget(x, y).unwrap();
            if target != ' ' {
                written.push((x, y, target));
            }
        }
    }
    assert_eq!(written, vec![(4, 4, 'A'), (4, 5, 'C'), (5, 4, 'B')]);
}

#[test]
fn printcenter_of_one_glyph_on_an_odd_grid() {
    let mut rng = scripted(&[0]);
    let mut matrix = build(5, 3, HALF, "", '.', &mut rng);
    matrix.printcenter("x");
    assert_eq!(targets(&matrix), vec![".....", "..x..", "....."]);
}

#[test]
fn printcenter_rounds_both_halves_down() {
    // Width 7, text 4: column 3 - 2 = 1. Height 4, text 3: row 2 - 1 = 1.
    let mut rng = scripted(&[0]);
    let mut matrix = build(7, 4, HALF, "", '.', &mut rng);
    matrix.printcenter("abcd\nef\ng");
    assert_eq!(targets(&matrix), vec![".......", ".abcd..", ".ef....", ".g....."]);
}

#[test]
fn printcenter_of_a_text_wider_than_the_grid_starts_at_the_left() {
    let mut rng = scripted(&[0]);
    let mut matrix = build(4, 2, HALF, "", '.', &mut rng);
    matrix.printcenter("ABCDEFGH");
    assert_eq!(targets(&matrix), vec!["....", "ABCD"]);
}

#[test]
fn printcenter_of_a_text_higher_than_the_grid_starts_at_the_top() {
    let mut rng = scripted(&[0]);
    let mut matrix = build(3, 2, HALF, "", '.', &mut rng);
    matrix.printcenter("a\nb\nc\nd\ne");
    assert_eq!(targets(&matrix), vec![".a.", ".b."]);
}

#[test]
fn printcenter_of_the_empty_text_changes_nothing() {
    let mut rng = scripted(&[0]);
    let mut matrix = build(4, 3, HALF, "", '.', &mut rng);
    matrix.printcenter("");
    assert_eq!(targets(&matrix), vec!["....", "....", "...."]);
}

#[test]
fn done_at_once_where_noise_can_only_be_the_default() {
    let mut rng = ThreadRandom::new();
    let mut matrix = TextShiftMatrix::new(6, 4, HALF, "", ' ', &mut rng)
        .unwrap_or_else(|e| panic!("no matrix: {:?}", e));
    assert!(matrix.done());
    matrix.printcenter("");
    assert!(matrix.done());
    assert_eq!(matrix.advance(&mut rng), None);
}

#[test]
fn done_tells_a_single_wrong_cell() {
    let mut rng = scripted(&[0]);
    let mut matrix = build(3, 3, HALF, "", ' ', &mut rng);
    assert!(matrix.done());
    matrix.print(2, 2, "x");
    assert!(!matrix.done());
}

#[test]
fn tick_with_certainty_is_done_after_one_step() {
    let mut rng = ThreadRandom::new();
    let mut matrix = TextShiftMatrix::new(12, 5, ALWAYS, "abcdefgh", ' ', &mut rng)
        .unwrap_or_else(|e| panic!("no matrix: {:?}", e));
    matrix.printcenter("hello\nworld");
    assert!(!matrix.done());
    matrix.tick(&mut rng);
    assert!(matrix.done());
    assert_eq!(shown(&matrix), targets(&matrix));
    // Width 12, text 5: column 6 - 2 = 4. Height 5, text 2: row 2 - 1 = 1.
    assert_eq!(shown(&matrix)[1], "    hello   ");
    assert_eq!(shown(&matrix)[2], "    world   ");
}

#[test]
fn tick_with_certainty_reaches_glyphs_outside_the_vocabulary() {
    let mut rng = scripted(&[1, 0, 1, 1]);
    let mut matrix = build(2, 2, ALWAYS, "a", ' ', &mut rng);
    matrix.print(0, 0, "QR\nST");
    matrix.tick(&mut rng);
    assert!(matrix.done());
    assert_eq!(shown(&matrix), vec!["QR", "ST"]);
}

#[test]
fn tick_without_chance_never_reaches_a_foreign_target() {
    let mut rng = ThreadRandom::new();
    let mut matrix = TextShiftMatrix::new(8, 3, NEVER, "abc", ' ', &mut rng)
        .unwrap_or_else(|e| panic!("no matrix: {:?}", e));
    matrix.print(3, 1, "X");
    for _ in 0..200 {
        matrix.tick(&mut rng);
        assert!(!matrix.done());
        let glyph = matrix.get(3, 1).unwrap();
        assert_ne!(glyph, 'X');
        assert!("abc ".contains(glyph));
    }
}

#[test]
fn tick_without_chance_can_still_hit_a_target_of_the_vocabulary() {
    // One cell shows 'b' and is to show 'a'. The trial fails, the pick is 'a'.
    let mut rng = scripted(&[1, 5, 0]);
    let mut matrix = build(1, 1, NEVER, "ab", 'a', &mut rng);
    assert_eq!(shown(&matrix), vec!["b"]);
    assert!(!matrix.done());
    matrix.tick(&mut rng);
    assert_eq!(shown(&matrix), vec!["a"]);
    assert!(matrix.done());
}

#[test]
fn tick_follows_the_draws_cell_by_cell() {
    // Vocabulary ' ', 'x', 'y'. The cells start as 'x', 'y', ' ', 'x' by offset.
    let mut rng = scripted(&[1, 2, 0, 1, 0, 3, 2, 1, 1, 4, 0, 0]);
    let mut matrix = build(2, 2, HALF, "xy", ' ', &mut rng);
    assert_eq!(shown(&matrix), vec!["x ", "yx"]);
    matrix.print(0, 0, "Qx\n!");
    assert_eq!(targets(&matrix), vec!["Qx", "! "]);
    // Offset 0 ('x' for 'Q'): the trial draws 0 and succeeds.
    // Offset 1 ('y' for '!'): the trial draws 3, that is 1, and fails; the
    // pick draws 2, 'y'.
    // Offset 2 (' ' for 'x'): the trial draws 1 and fails; the pick draws 1.
    // Offset 3 ('x' for ' '): the trial draws 4, that is 0, and succeeds.
    matrix.tick(&mut rng);
    assert_eq!(shown(&matrix), vec!["Qx", "y "]);
    assert!(!matrix.done());
    // Only offset 1 is left: the trial draws 0 and succeeds.
    matrix.tick(&mut rng);
    assert_eq!(shown(&matrix), vec!["Qx", "! "]);
    assert!(matrix.done());
    assert_eq!(rng.draw_below(100), 0);
    assert_eq!(rng.draw_below(100), 1);
}

#[test]
fn tick_draws_nothing_for_cells_that_show_their_target() {
    let mut rng = scripted(&[0, 0, 0, 0, 17, 18]);
    let mut matrix = build(2, 2, HALF, "ab", ' ', &mut rng);
    assert!(matrix.done());
    matrix.tick(&mut rng);
    assert!(matrix.done());
    assert_eq!(shown(&matrix), vec!["  ", "  "]);
    assert_eq!(rng.draw_below(100), 17);
}

#[test]
fn tick_leaves_the_targets_alone() {
    let mut rng = ThreadRandom::new();
    let mut matrix = TextShiftMatrix::new(9, 4, HALF, "abc", ' ', &mut rng)
        .unwrap_or_else(|e| panic!("no matrix: {:?}", e));
    matrix.printcenter("ab\ncd");
    let before = targets(&matrix);
    for _ in 0..20 {
        matrix.tick(&mut rng);
        assert_eq!(targets(&matrix), before);
    }
}

#[test]
fn tick_never_unsettles_a_cell() {
    let mut rng = ThreadRandom::new();
    let mut matrix = TextShiftMatrix::new(9, 4, Probability::new(1, 4), "abcdef", ' ', &mut rng)
        .unwrap_or_else(|e| panic!("no matrix: {:?}", e));
    matrix.printcenter("XY\nZ");
    let mut settled = vec![false; 36];
    for _ in 0..60 {
        matrix.tick(&mut rng);
        for x in 0..9u16 {
            for y in 0..4u16 {
                let index = matrix.getindex(x, y).unwrap();
                let now = matrix.get(x, y) == matrix.gettarget(x, y);
                assert!(now || !settled[index]);
                settled[index] = now;
            }
        }
    }
}

#[test]
fn tick_is_reproducible_from_the_same_draws() {
    let script: Vec<u64> = (0..97u64).map(|i| i * i * 31 + 7 * i + 3).collect();
    let mut frames: Vec<Vec<Vec<DrawInstruction>>> = Vec::new();
    for _ in 0..2 {
        let mut rng = ScriptedRandom::new(script.clone());
        let mut matrix = build(6, 3, Probability::new(1, 3), "abcdefg", ' ', &mut rng);
        matrix.printcenter("go\non");
        let mut run = vec![matrix.render()];
        for _ in 0..25 {
            matrix.tick(&mut rng);
            run.push(matrix.render());
        }
        frames.push(run);
    }
    assert_eq!(frames[0], frames[1]);
    assert_ne!(frames[0][0], frames[0][1]);
}

#[test]
fn render_draws_every_cell_column_by_column() {
    let mut rng = scripted(&[1, 0, 0, 1, 1, 1]);
    let mut matrix = build(3, 2, HALF, "a", ' ', &mut rng);
    matrix.print(0, 0, "a");
    let cell = |x, y, glyph, emphasized| DrawInstruction { x, y, glyph, emphasized };
    assert_eq!(
        matrix.render(),
        vec![
            cell(0, 0, 'a', true),
            cell(0, 1, ' ', true),
            cell(1, 0, ' ', true),
            cell(1, 1, 'a', false),
            cell(2, 0, 'a', false),
            cell(2, 1, 'a', false),
        ]
    );
}

#[test]
fn render_twice_gives_the_same_frame() {
    let mut rng = ThreadRandom::new();
    let mut matrix = TextShiftMatrix::new(11, 7, HALF, "abcxyz", ' ', &mut rng)
        .unwrap_or_else(|e| panic!("no matrix: {:?}", e));
    matrix.printcenter("same\nframe");
    let first = matrix.render();
    let second = matrix.render();
    assert_eq!(first, second);
    assert_eq!(first.len(), 77);
}

#[test]
fn render_agrees_with_the_cells() {
    let mut rng = ThreadRandom::new();
    let mut matrix = TextShiftMatrix::new(5, 4, HALF, "ab", ' ', &mut rng)
        .unwrap_or_else(|e| panic!("no matrix: {:?}", e));
    matrix.printcenter("ab");
    matrix.tick(&mut rng);
    let frame = matrix.render();
    assert_eq!(frame.len(), 20);
    for (index, instruction) in frame.iter().enumerate() {
        assert_eq!(matrix.getindex(instruction.x, instruction.y), Some(index));
        assert_eq!(matrix.get(instruction.x, instruction.y), Some(instruction.glyph));
        assert_eq!(
            instruction.emphasized,
            matrix.gettarget(instruction.x, instruction.y) == Some(instruction.glyph)
        );
    }
}

#[test]
fn advance_on_a_done_matrix_shows_nothing_and_draws_nothing() {
    let mut rng = scripted(&[0, 0, 23]);
    let mut matrix = build(2, 1, HALF, "a", ' ', &mut rng);
    assert!(matrix.done());
    assert_eq!(matrix.advance(&mut rng), None);
    assert_eq!(shown(&matrix), vec!["  "]);
    assert_eq!(rng.draw_below(100), 23);
}

#[test]
fn advance_ticks_once_and_shows_the_outcome() {
    let mut rng = scripted(&[0, 0, 1, 1, 0]);
    let mut matrix = build(2, 1, HALF, "a", ' ', &mut rng);
    matrix.print(0, 0, "zz");
    // Offset 0: the trial draws 1 and fails, the pick draws 1, 'a'.
    // Offset 1: the trial draws 0 and succeeds.
    let frame = matrix.advance(&mut rng);
    assert_eq!(
        frame,
        Some(vec![
            DrawInstruction { x: 0, y: 0, glyph: 'a', emphasized: false },
            DrawInstruction { x: 1, y: 0, glyph: 'z', emphasized: true },
        ])
    );
    assert_eq!(frame, Some(matrix.render()));
}

#[test]
fn advance_runs_to_the_end() {
    let mut rng = ThreadRandom::new();
    let mut matrix = TextShiftMatrix::new(10, 4, Probability::new(1, 3), "abc", ' ', &mut rng)
        .unwrap_or_else(|e| panic!("no matrix: {:?}", e));
    matrix.printcenter("the\nend");
    let mut turns = 0;
    while let Some(frame) = matrix.advance(&mut rng) {
        assert_eq!(frame.len(), 40);
        turns += 1;
        assert!(turns < 10_000);
    }
    assert!(matrix.done());
    assert!(turns > 0);
    // Width 10, text 3: column 5 - 1 = 4. Height 4, text 2: row 2 - 1 = 1.
    assert_eq!(shown(&matrix)[1], "    the   ");
    assert_eq!(shown(&matrix)[2], "    end   ");
}
