use custom_image::error::CustomError;
use custom_image::error::Expected;
use custom_image::error::NumberOverflow;
use custom_image::error::ParseFailure;
use custom_image::read::read_content;
use custom_image::read::RawCommand;

fn expect_syntax(input: &[u8]) -> (usize, Expected) {
    match read_content(input) {
        Err(CustomError::Parsing(ParseFailure::Syntax { position, expected })) => {
            (position, expected)
        },
        other => panic!("expected a syntax error, got {:?}", other),
    }
}

#[test]
fn tokens_stay_deferred_until_validation() {
    // The parser accepts any digit run; only the validator ranges-checks.
    let text = b"width 4294967296\nheight 7\nbackground [300,0,0]\npixel (0,4294967296) [1,2,3]";
    let doc = read_content(text).unwrap();
    assert_eq!(doc.width, Err(NumberOverflow));
    assert_eq!(doc.height, Ok(7));
    assert_eq!(doc.background, vec![Err(NumberOverflow), Ok(0), Ok(0)]);
    match &doc.commands[..] {
        [RawCommand::DrawPixel { position, color }] => {
            assert_eq!(*position, (Ok(0), Err(NumberOverflow)));
            assert_eq!(*color, vec![Ok(1), Ok(2), Ok(3)]);
        },
        other => panic!("expected one pixel command, got {:?}", other),
    }
}

#[test]
fn u32_boundary_values() {
    let text = b"width 4294967295\nheight 4294967296\nbackground [0,0,0]\n";
    let doc = read_content(text).unwrap();
    assert_eq!(doc.width, Ok(4294967295));
    assert_eq!(doc.height, Err(NumberOverflow));
}

#[test]
fn u8_boundary_values() {
    let text = b"width 1\nheight 1\nbackground [255,256,0]\n";
    let doc = read_content(text).unwrap();
    assert_eq!(doc.background, vec![Ok(255), Err(NumberOverflow), Ok(0)]);
}

#[test]
fn missing_width_keyword() {
    let (position, expected) = expect_syntax(b"depth 2\nheight 2\nbackground [0,0,0]\n");
    assert_eq!(position, 0);
    assert_eq!(expected, Expected::WidthHeader);
}

#[test]
fn missing_newline_after_width() {
    let (_, expected) = expect_syntax(b"width 2 height 2\nbackground [0,0,0]\n");
    assert_eq!(expected, Expected::Newline);
}

#[test]
fn background_line_is_mandatory() {
    let (_, expected) = expect_syntax(b"width 2\nheight 2\npixel (0,0) [1,2,3]");
    assert_eq!(expected, Expected::BackgroundHeader);
}

#[test]
fn newline_after_background_is_mandatory() {
    // The file ends right after the background color: the grammar wants
    // at least one newline there, even with no commands at all.
    let (_, expected) = expect_syntax(b"width 2\nheight 2\nbackground [0,0,0]");
    assert_eq!(expected, Expected::Newline);
}

#[test]
fn coordinate_must_have_exactly_two_components() {
    let (_, expected) = expect_syntax(b"width 2\nheight 2\nbackground [0,0,0]\npixel (1,2,3) [1,2,3]");
    assert_eq!(expected, Expected::Command);
}

#[test]
fn unknown_command_keyword() {
    let (_, expected) = expect_syntax(b"width 2\nheight 2\nbackground [0,0,0]\ncircle (0,0) [1,2,3]");
    assert_eq!(expected, Expected::Command);
}

#[test]
fn blank_line_between_commands_is_refused() {
    let text = b"width 2\nheight 2\nbackground [0,0,0]\npixel (0,0) [1,2,3]\n\npixel (1,1) [1,2,3]";
    let (_, expected) = expect_syntax(text);
    assert_eq!(expected, Expected::EndOfInput);
}

#[test]
fn trailing_junk_after_command_is_refused() {
    let text = b"width 2\nheight 2\nbackground [0,0,0]\npixel (0,0) [1,2,3] junk";
    let (_, expected) = expect_syntax(text);
    assert_eq!(expected, Expected::Newline);
}

#[test]
fn trailing_newlines_after_last_command_are_tolerated() {
    let text = b"width 2\nheight 2\nbackground [0,0,0]\npixel (0,0) [1,2,3]\n\n\n";
    let doc = read_content(text).unwrap();
    assert_eq!(doc.commands.len(), 1);
}

#[test]
fn blank_lines_before_the_command_list_are_tolerated() {
    let text = b"width 2\nheight 2\nbackground [0,0,0]\n\n\npixel (0,0) [1,2,3]";
    let doc = read_content(text).unwrap();
    assert_eq!(doc.commands.len(), 1);
}

#[test]
fn whitespace_around_commas_is_tolerated() {
    let text = b"width 2\nheight 2\nbackground [0 , 0 ,\t0]\npixel (0 ,\t1) [1, 2, 3]";
    let doc = read_content(text).unwrap();
    assert_eq!(doc.background, vec![Ok(0), Ok(0), Ok(0)]);
    match &doc.commands[..] {
        [RawCommand::DrawPixel { position, .. }] => {
            assert_eq!(*position, (Ok(0), Ok(1)));
        },
        other => panic!("expected one pixel command, got {:?}", other),
    }
}

#[test]
fn space_inside_parentheses_is_refused() {
    let (_, expected) = expect_syntax(b"width 2\nheight 2\nbackground [0,0,0]\npixel ( 0,1) [1,2,3]");
    assert_eq!(expected, Expected::Command);
}

#[test]
fn empty_color_array_parses_as_empty_list() {
    // Syntactically fine; its length is the validator's business.
    let text = b"width 2\nheight 2\nbackground []\n";
    let doc = read_content(text).unwrap();
    assert_eq!(doc.background, vec![]);
}

#[test]
fn rect_command_carries_both_corners() {
    let text = b"width 9\nheight 9\nbackground [1,2,3]\nrect (1,2) (3,4) [5,6,7,8]";
    let doc = read_content(text).unwrap();
    match &doc.commands[..] {
        [RawCommand::DrawRect { corner_position_1, corner_position_2, color }] => {
            assert_eq!(*corner_position_1, (Ok(1), Ok(2)));
            assert_eq!(*corner_position_2, (Ok(3), Ok(4)));
            assert_eq!(*color, vec![Ok(5), Ok(6), Ok(7), Ok(8)]);
        },
        other => panic!("expected one rect command, got {:?}", other),
    }
}

#[test]
fn commands_keep_their_source_order() {
    let text = b"width 9\nheight 9\nbackground [0,0,0]\npixel (1,1) [1,1,1]\nrect (0,0) (2,2) [2,2,2]\npixel (3,3) [3,3,3]";
    let doc = read_content(text).unwrap();
    assert_eq!(doc.commands.len(), 3);
    assert!(matches!(doc.commands[0], RawCommand::DrawPixel { .. }));
    assert!(matches!(doc.commands[1], RawCommand::DrawRect { .. }));
    assert!(matches!(doc.commands[2], RawCommand::DrawPixel { .. }));
}
