use pitch_detector::constants::{MAX_CENTS_OFFSET, NUM_CENTS_BETWEEN_NOTES, STEPS_PER_CENT};
use pitch_detector::note_renderers::cmd_line::{CmdLineNoteRenderer, TunerLayout};

#[test]
fn layout_of_eighty_columns() {
    assert_eq!(NUM_CENTS_BETWEEN_NOTES, 100);
    assert_eq!(MAX_CENTS_OFFSET, 10);
    assert_eq!(STEPS_PER_CENT, 100);
    let layout = TunerLayout::new(0, 80);
    assert_eq!(
        layout,
        TunerLayout {
            left_tick_pos: 36,
            right_tick_pos: 44,
            note_name_pos: 40,
            cursor_pos: 40,
            previous_note_pos: 0,
            next_note_pos: 79,
            width: 80,
        }
    );
}

#[test]
fn ticks_are_rounded_to_the_nearest_column() {
    // nine tenths of 5 is 4.5, which is rounded up
    let layout = TunerLayout::new(0, 10);
    assert_eq!((layout.left_tick_pos, layout.note_name_pos, layout.right_tick_pos), (5, 5, 5));
    // nine tenths of 6 is 5.4
    let layout = TunerLayout::new(0, 12);
    assert_eq!((layout.left_tick_pos, layout.note_name_pos, layout.right_tick_pos), (5, 6, 7));
    let layout = TunerLayout::new(0, 13);
    assert_eq!((layout.left_tick_pos, layout.note_name_pos, layout.right_tick_pos), (5, 6, 7));
    assert_eq!(layout.next_note_pos, 12);
    let layout = TunerLayout::new(0, u16::MAX);
    assert_eq!((layout.left_tick_pos, layout.note_name_pos, layout.right_tick_pos), (29490, 32767, 36044));
}

#[test]
fn narrowest_layouts_keep_their_columns_in_order() {
    let layout = TunerLayout::new(0, 1);
    assert_eq!((layout.left_tick_pos, layout.note_name_pos, layout.right_tick_pos, layout.next_note_pos), (0, 0, 0, 0));
    let layout = TunerLayout::new(0, 2);
    assert_eq!((layout.left_tick_pos, layout.note_name_pos, layout.right_tick_pos, layout.next_note_pos), (1, 1, 1, 1));
    let layout = TunerLayout::new(0, 3);
    assert_eq!((layout.left_tick_pos, layout.note_name_pos, layout.right_tick_pos, layout.next_note_pos), (1, 1, 1, 2));
}

#[test]
fn cursor_moves_against_the_offset() {
    assert_eq!(TunerLayout::new(2500, 80).cursor_pos, 30);
    assert_eq!(TunerLayout::new(-2500, 80).cursor_pos, 50);
    assert_eq!(TunerLayout::new(5000, 80).cursor_pos, 20);
    assert_eq!(TunerLayout::new(-5000, 80).cursor_pos, 60);
    // 40 * 0.99 = 39.6 and 40 * 1.01 = 40.4
    assert_eq!(TunerLayout::new(100, 80).cursor_pos, 40);
    assert_eq!(TunerLayout::new(200, 80).cursor_pos, 39);
    assert_eq!(TunerLayout::new(-100, 80).cursor_pos, 40);
    assert_eq!(TunerLayout::new(-200, 80).cursor_pos, 41);
    // a cent and a fifth gives 39.52, a cent and three tenths 39.48
    assert_eq!(TunerLayout::new(120, 80).cursor_pos, 40);
    assert_eq!(TunerLayout::new(130, 80).cursor_pos, 39);
    assert_eq!(TunerLayout::new(125, 80).cursor_pos, 40);
}

#[test]
fn cursor_stays_within_sixteen_bits() {
    assert_eq!(TunerLayout::new(10000, 80).cursor_pos, 0);
    assert_eq!(TunerLayout::new(10100, 80).cursor_pos, 0);
    assert_eq!(TunerLayout::new(i32::MAX, 80).cursor_pos, 0);
    assert_eq!(TunerLayout::new(i32::MIN, 80).cursor_pos, u16::MAX);
    assert_eq!(TunerLayout::new(-16370000, 80).cursor_pos, 65520);
    assert_eq!(TunerLayout::new(-16380000, 80).cursor_pos, u16::MAX);
    assert_eq!(TunerLayout::new(-10000, u16::MAX).cursor_pos, 65534);
    assert_eq!(TunerLayout::new(-10100, u16::MAX).cursor_pos, u16::MAX);
    assert_eq!(TunerLayout::new(i32::MIN, 1).cursor_pos, 0);
}

#[test]
fn line_holds_names_blanks_dots_and_the_cursor() {
    let layout = TunerLayout::new(0, 20);
    assert_eq!((layout.left_tick_pos, layout.note_name_pos, layout.right_tick_pos), (9, 10, 11));
    let line = layout.build("G#", "A", "A#");
    assert_eq!(line, "G#        |.A.        A#");
    let line = TunerLayout::new(2000, 20).build("G#", "A", "A#");
    assert_eq!(line, "G#      |  .A.        A#");
    let line = TunerLayout::new(-3000, 20).build("G#", "A", "A#");
    assert_eq!(line, "G#         .A|        A#");
    let line = TunerLayout::new(10000, 20).build("G#", "A", "A#");
    assert_eq!(line, "|#         .A.        A#");
}

#[test]
fn line_without_names_has_one_column_less_than_the_terminal() {
    let layout = TunerLayout::new(0, 12);
    let line = layout.build("", "", "");
    assert_eq!(line, "     .|    ");
    assert_eq!(line.len(), 11);
}

#[test]
fn cursor_counts_characters() {
    let layout = TunerLayout::new(9000, 20);
    assert_eq!(layout.cursor_pos, 1);
    assert_eq!(layout.build("G♯", "A", "A♯"), "G|         .A.        A♯");
}

#[test]
fn cursor_must_fall_on_the_line() {
    let layout = TunerLayout::new(-10000, 20);
    assert_eq!(layout.cursor_pos, 20);
    assert!(!layout.fits("", "", ""));
    assert!(!layout.fits("", "A", ""));
    assert!(layout.fits("G#", "", ""));
    assert!(layout.fits("", "A", "♯"));
    assert_eq!(layout.build("", "A", "♯"), "         .A.        |");
    assert!(!TunerLayout::new(0, 1).fits("", "", ""));
    assert!(TunerLayout::new(0, 1).fits("", "A", ""));
}

#[test]
fn renderer_keeps_its_size() {
    let renderer = CmdLineNoteRenderer::new_with_rows_and_columns(80, 24);
    assert_eq!(renderer.cols(), 80);
    assert_eq!(renderer.rows(), 24);
}

#[test]
fn renderer_draws_over_its_whole_width() {
    let renderer = CmdLineNoteRenderer::new_with_rows_and_columns(20, 3);
    assert_eq!(renderer.render_line(0, "G#", "A", "A#"), Some(String::from("G#        |.A.        A#")));
    assert_eq!(
        renderer.render_line(2000, "G#", "A", "A#"),
        Some(TunerLayout::new(2000, 20).build("G#", "A", "A#"))
    );
}

#[test]
fn renderer_draws_nothing_it_cannot_draw() {
    let renderer = CmdLineNoteRenderer::new_with_rows_and_columns(0, 24);
    assert_eq!(renderer.render_line(0, "G#", "A", "A#"), None);
    let renderer = CmdLineNoteRenderer::new_with_rows_and_columns(20, 24);
    assert_eq!(renderer.render_line(-10000, "", "", ""), None);
    assert!(renderer.render_line(-10000, "G", "A", "B").is_some());
}
