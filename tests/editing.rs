use rite::buffer::TextBuffer;
use rite::cursor::Cursor;

fn text(buffer: &TextBuffer) -> String {
    buffer.content().iter().collect::<String>()
}

fn state(cursor: &Cursor) -> (usize, usize, usize, usize) {
    (cursor.index(), cursor.line(), cursor.column(), cursor.desired_column())
}

fn cursor_at(buffer: &TextBuffer, index: usize) -> Cursor {
    let mut cursor = Cursor::new();
    for _ in 0..index {
        cursor.move_right(buffer);
    }
    assert_eq!(cursor.index(), index);
    cursor
}

fn assert_consistent(buffer: &TextBuffer, cursor: &Cursor) {
    assert_eq!(buffer.position_of(cursor.index()), cursor.cursor_position());
    let line = buffer.line_at(cursor.line());
    assert!(cursor.column() <= line.len());
}

#[test]
fn new_buffer_counts_scalar_values() {
    let buffer = TextBuffer::new("héllo\nwörld");
    assert_eq!(buffer.len(), 11);
    assert_eq!(buffer.char_at(1), 'é');
    assert_eq!(buffer.char_at(5), '\n');
    assert_eq!(buffer.line_count(), 2);
    assert_eq!(buffer.line_at(0), "héllo".chars().collect::<Vec<char>>());
    assert_eq!(buffer.line_at(1), "wörld".chars().collect::<Vec<char>>());
}

#[test]
fn empty_buffer_has_one_empty_line() {
    let buffer = TextBuffer::new("");
    assert_eq!(buffer.len(), 0);
    assert_eq!(buffer.line_count(), 1);
    assert!(buffer.line_at(0).is_empty());
    assert_eq!(buffer.position_of(0), (0, 0));
}

#[test]
fn trailing_line_break_opens_an_empty_last_line() {
    let buffer = TextBuffer::new("ab\n");
    assert_eq!(buffer.line_count(), 2);
    assert!(buffer.line_at(1).is_empty());
    assert_eq!(buffer.position_of(3), (1, 0));
    let mut cursor = cursor_at(&buffer, 2);
    cursor.move_down(&buffer);
    assert_eq!(state(&cursor), (3, 1, 0, 2));
}

#[test]
fn insert_and_remove_at_positions() {
    let mut buffer = TextBuffer::new("ac");
    buffer.insert_at(1, 'b');
    assert_eq!(text(&buffer), "abc");
    buffer.insert_at(3, '\n');
    assert_eq!(text(&buffer), "abc\n");
    buffer.insert_at(0, 'ü');
    assert_eq!(text(&buffer), "üabc\n");
    assert_eq!(buffer.remove_at(0), 'ü');
    assert_eq!(buffer.remove_at(3), '\n');
    assert_eq!(text(&buffer), "abc");
}

#[test]
fn position_of_scans_from_the_start() {
    let buffer = TextBuffer::new("ab\n\ncde\nf");
    assert_eq!(buffer.position_of(0), (0, 0));
    assert_eq!(buffer.position_of(2), (0, 2));
    assert_eq!(buffer.position_of(3), (1, 0));
    assert_eq!(buffer.position_of(4), (2, 0));
    assert_eq!(buffer.position_of(7), (2, 3));
    assert_eq!(buffer.position_of(9), (3, 1));
    assert_eq!(buffer.line_count(), 4);
    assert_eq!(buffer.line_at(2), vec!['c', 'd', 'e']);
}

#[test]
fn new_cursor_is_at_the_start() {
    let cursor = Cursor::new();
    assert_eq!(state(&cursor), (0, 0, 0, 0));
    assert_eq!(cursor.cursor_position(), (0, 0));
}

#[test]
fn right_then_left_restores_every_position() {
    let buffer = TextBuffer::new("ab\n\nçd\n");
    for index in 0..buffer.len() {
        let mut cursor = cursor_at(&buffer, index);
        let before = (cursor.index(), cursor.line(), cursor.column());
        cursor.move_right(&buffer);
        cursor.move_left(&buffer);
        assert_eq!((cursor.index(), cursor.line(), cursor.column()), before);
    }
}

#[test]
fn coordinates_stay_consistent_through_commands() {
    let mut buffer = TextBuffer::new("fn main() {\n    let x = 1;\n}\n");
    let mut cursor = Cursor::new();
    assert_consistent(&buffer, &cursor);
    let commands = "ddrrrrrruuxnlllbdddrrrrbbbbuuuunxdrrrrrrrrrrrrrrrrrrrrdddlll";
    for command in commands.chars() {
        match command {
            'l' => cursor.move_left(&buffer),
            'r' => cursor.move_right(&buffer),
            'u' => cursor.move_up(&buffer),
            'd' => cursor.move_down(&buffer),
            'x' => cursor.insert_char(&mut buffer, 'ß'),
            'n' => cursor.insert_newline(&mut buffer),
            'b' => cursor.delete_backward(&mut buffer),
            _ => unreachable!(),
        }
        assert_consistent(&buffer, &cursor);
    }
}

#[test]
fn sticky_column_survives_a_short_line() {
    let buffer = TextBuffer::new("abcdef\nab\nabcdef");
    let mut cursor = cursor_at(&buffer, 5);
    assert_eq!(cursor.cursor_position(), (0, 5));
    cursor.move_down(&buffer);
    assert_eq!(state(&cursor), (9, 1, 2, 5));
    cursor.move_down(&buffer);
    assert_eq!(state(&cursor), (15, 2, 5, 5));
    cursor.move_up(&buffer);
    assert_eq!(state(&cursor), (9, 1, 2, 5));
    cursor.move_up(&buffer);
    assert_eq!(state(&cursor), (5, 0, 5, 5));
}

#[test]
fn horizontal_move_resets_the_desired_column() {
    let buffer = TextBuffer::new("abcdef\nab\nabcdef");
    let mut cursor = cursor_at(&buffer, 5);
    cursor.move_down(&buffer);
    cursor.move_left(&buffer);
    assert_eq!(state(&cursor), (8, 1, 1, 1));
    cursor.move_down(&buffer);
    assert_eq!(state(&cursor), (11, 2, 1, 1));
}

#[test]
fn move_left_at_start_changes_nothing() {
    let buffer = TextBuffer::new("ab\ncd");
    let mut cursor = Cursor::new();
    cursor.move_left(&buffer);
    assert_eq!(state(&cursor), (0, 0, 0, 0));
}

#[test]
fn move_right_at_end_changes_nothing() {
    let buffer = TextBuffer::new("ab\ncd");
    let mut cursor = cursor_at(&buffer, 5);
    let before = state(&cursor);
    cursor.move_right(&buffer);
    assert_eq!(state(&cursor), before);
    assert_eq!(before, (5, 1, 2, 2));
}

#[test]
fn move_down_on_last_line_changes_nothing() {
    let buffer = TextBuffer::new("ab\ncd");
    let mut cursor = cursor_at(&buffer, 4);
    let before = state(&cursor);
    cursor.move_down(&buffer);
    assert_eq!(state(&cursor), before);
    assert_eq!(before, (4, 1, 1, 1));
}

#[test]
fn move_up_on_first_line_goes_to_start() {
    let buffer = TextBuffer::new("abcd\nef");
    let mut cursor = cursor_at(&buffer, 3);
    cursor.move_up(&buffer);
    assert_eq!(cursor.index(), 0);
    assert_eq!(cursor.line(), 0);
    assert_eq!(cursor.column(), 0);
    assert_eq!(cursor.desired_column(), 3);
}

#[test]
fn empty_buffer_moves_change_nothing() {
    let mut buffer = TextBuffer::new("");
    let mut cursor = Cursor::new();
    cursor.move_left(&buffer);
    cursor.move_right(&buffer);
    cursor.move_down(&buffer);
    cursor.move_up(&buffer);
    cursor.delete_backward(&mut buffer);
    assert_eq!(state(&cursor), (0, 0, 0, 0));
    assert_eq!(text(&buffer), "");
}

#[test]
fn move_left_over_line_break_lands_at_previous_line_end() {
    let buffer = TextBuffer::new("añb\ncd");
    let mut cursor = cursor_at(&buffer, 4);
    assert_eq!(cursor.cursor_position(), (1, 0));
    cursor.move_left(&buffer);
    assert_eq!(state(&cursor), (3, 0, 3, 3));
}

#[test]
fn move_right_over_line_break_starts_next_line() {
    let buffer = TextBuffer::new("ab\ncd");
    let mut cursor = cursor_at(&buffer, 2);
    cursor.move_right(&buffer);
    assert_eq!(state(&cursor), (3, 1, 0, 0));
}

#[test]
fn vertical_moves_count_scalar_values() {
    let buffer = TextBuffer::new("ééé\nüü\nxyz");
    let mut cursor = cursor_at(&buffer, 3);
    cursor.move_down(&buffer);
    assert_eq!(state(&cursor), (6, 1, 2, 3));
    cursor.move_down(&buffer);
    assert_eq!(state(&cursor), (10, 2, 3, 3));
    cursor.move_up(&buffer);
    cursor.move_up(&buffer);
    assert_eq!(state(&cursor), (3, 0, 3, 3));
}

#[test]
fn insertion_shifts_coordinates() {
    let mut buffer = TextBuffer::new("ab");
    let mut cursor = cursor_at(&buffer, 1);
    assert_eq!(cursor.column(), 1);
    cursor.insert_char(&mut buffer, 'X');
    assert_eq!(text(&buffer), "aXb");
    assert_eq!(cursor.index(), 2);
    assert_eq!(cursor.column(), 2);
    cursor.insert_newline(&mut buffer);
    assert_eq!(text(&buffer), "aX\nb");
    assert_eq!(cursor.index(), 3);
    assert_eq!(cursor.line(), 1);
    assert_eq!(cursor.column(), 0);
}

#[test]
fn delete_backward_mirrors_move_left_then_remove() {
    let mut buffer = TextBuffer::new("abc");
    let mut cursor = cursor_at(&buffer, 3);
    cursor.delete_backward(&mut buffer);
    assert_eq!(text(&buffer), "ab");
    assert_eq!(cursor.index(), 2);
    assert_eq!(cursor.column(), 2);
    while cursor.index() > 0 {
        cursor.delete_backward(&mut buffer);
    }
    assert_eq!(text(&buffer), "");
    cursor.delete_backward(&mut buffer);
    assert_eq!(state(&cursor), (0, 0, 0, 0));
}

#[test]
fn delete_backward_joins_lines() {
    let mut buffer = TextBuffer::new("ab\ncd");
    let mut cursor = cursor_at(&buffer, 3);
    cursor.delete_backward(&mut buffer);
    assert_eq!(text(&buffer), "abcd");
    assert_eq!(state(&cursor), (2, 0, 2, 2));
    assert_eq!(buffer.line_count(), 1);
}
