use custom_image::error::CustomError;
use custom_image::error::DrawingError;
use custom_image::error::NumberOverflow;
use custom_image::error::ParseFailure;
use custom_image::parser::parse_file;
use custom_image::Command;
use custom_image::CustomImage;
use custom_image::ImageFill;
use custom_image::Pixel;

fn parts(img: &CustomImage) -> (&Vec<Command>, Pixel) {
    match &img.data {
        ImageFill::Sparse((commands, background)) => (commands, *background),
    }
}

#[test]
fn red_pixel_on_black_canvas() {
    let text = b"width 2\nheight 2\nbackground [0,0,0]\npixel (0,0) [255,0,0]";
    let img = parse_file(text).unwrap();
    assert_eq!(img.width, 2);
    assert_eq!(img.height, 2);
    let (commands, background) = parts(&img);
    assert_eq!(background, Pixel { r: 0, g: 0, b: 0, a: 255 });
    assert_eq!(
        commands.as_slice(),
        &[Command::DrawPixel {
            position: (0, 0),
            color: Pixel { r: 255, g: 0, b: 0, a: 255 },
        }]
    );

    let buf = img.render().unwrap();
    assert_eq!(buf.width(), 2);
    assert_eq!(buf.height(), 2);
    let red = Pixel { r: 255, g: 0, b: 0, a: 255 };
    let black = Pixel { r: 0, g: 0, b: 0, a: 255 };
    assert_eq!(buf.pixel(0, 0), Some(red));
    assert_eq!(buf.pixel(1, 0), Some(black));
    assert_eq!(buf.pixel(0, 1), Some(black));
    assert_eq!(buf.pixel(1, 1), Some(black));
}

#[test]
fn rect_spans_canvas_regardless_of_corner_order() {
    // The two corners arrive in "wrong" order on both axes; the filled
    // region is the whole canvas all the same.
    let text = b"width 2\nheight 2\nbackground [0,0,0]\nrect (1,0) (0,1) [0,255,0]";
    let img = parse_file(text).unwrap();
    let buf = img.render().unwrap();
    let green = Pixel { r: 0, g: 255, b: 0, a: 255 };
    for x in 0..2 {
        for y in 0..2 {
            assert_eq!(buf.pixel(x, y), Some(green));
        }
    }

    let swapped = b"width 2\nheight 2\nbackground [0,0,0]\nrect (0,1) (1,0) [0,255,0]";
    let img2 = parse_file(swapped).unwrap();
    let buf2 = img2.render().unwrap();
    for x in 0..2 {
        for y in 0..2 {
            assert_eq!(buf2.pixel(x, y), buf.pixel(x, y));
        }
    }
}

#[test]
fn malformed_background_color_of_length_two() {
    let text = b"width 2\nheight 2\nbackground [1,2]\npixel (0,0) [1,2,3]";
    match parse_file(text) {
        Err(CustomError::Parsing(ParseFailure::ColorLength { values })) => {
            assert_eq!(values, vec![Ok(1u8), Ok(2u8)]);
        },
        other => panic!("expected a malformed-color error, got {:?}", other),
    }
}

#[test]
fn out_of_bounds_pixel_validates_but_fails_to_render() {
    let text = b"width 2\nheight 2\nbackground [0,0,0]\npixel (5,5) [0,0,0]";
    let img = parse_file(text).unwrap();
    assert_eq!(img.width, 2);
    match img.render() {
        Err(CustomError::Drawing(DrawingError::OutOfBounds { x, y })) => {
            assert_eq!((x, y), (5, 5));
        },
        other => panic!("expected an out-of-bounds drawing error, got {:?}", other),
    }
}

#[test]
fn huge_height_is_a_numeric_range_error() {
    let text = b"width 2\nheight 99999999999999\nbackground [0,0,0]\npixel (0,0) [1,2,3]";
    match parse_file(text) {
        Err(CustomError::ParseNumberValue(NumberOverflow)) => {},
        other => panic!("expected a numeric-range error, got {:?}", other),
    }
}

#[test]
fn parsing_twice_yields_identical_documents() {
    let text = b"width 3\nheight 4\nbackground [9,8,7,6]\npixel (1,2) [3,4,5]\nrect (0,0) (2,3) [1,2,3,4]";
    let img1 = parse_file(text).unwrap();
    let img2 = parse_file(text).unwrap();
    assert_eq!(img1.width, img2.width);
    assert_eq!(img1.height, img2.height);
    let (commands1, background1) = parts(&img1);
    let (commands2, background2) = parts(&img2);
    assert_eq!(background1, background2);
    assert_eq!(commands1, commands2);
}

#[test]
fn later_command_wins_where_regions_overlap() {
    let text = b"width 3\nheight 1\nbackground [0,0,0]\nrect (0,0) (1,0) [10,10,10]\nrect (1,0) (2,0) [20,20,20]";
    let img = parse_file(text).unwrap();
    let buf = img.render().unwrap();
    let first = Pixel { r: 10, g: 10, b: 10, a: 255 };
    let second = Pixel { r: 20, g: 20, b: 20, a: 255 };
    assert_eq!(buf.pixel(0, 0), Some(first));
    // Both rectangles cover (1,0); the later one wins.
    assert_eq!(buf.pixel(1, 0), Some(second));
    assert_eq!(buf.pixel(2, 0), Some(second));
}

#[test]
fn empty_command_list_renders_the_background() {
    let text = b"width 2\nheight 3\nbackground [5,6,7]\n";
    let img = parse_file(text).unwrap();
    let (commands, _) = parts(&img);
    assert!(commands.is_empty());
    let buf = img.render().unwrap();
    let bg = Pixel { r: 5, g: 6, b: 7, a: 255 };
    for x in 0..2 {
        for y in 0..3 {
            assert_eq!(buf.pixel(x, y), Some(bg));
        }
    }
    assert_eq!(buf.pixel(2, 0), None);
    assert_eq!(buf.pixel(0, 3), None);
}

#[test]
fn zero_sized_canvas_validates_but_cannot_render() {
    let text = b"width 0\nheight 0\nbackground [0,0,0]\n";
    let img = parse_file(text).unwrap();
    assert_eq!(img.width, 0);
    assert_eq!(img.height, 0);
    match img.render() {
        Err(CustomError::Drawing(DrawingError::Canvas { width, height })) => {
            assert_eq!((width, height), (0, 0));
        },
        other => panic!("expected a canvas drawing error, got {:?}", other),
    }
}

#[test]
fn rect_partly_off_canvas_blames_an_outside_point() {
    let text = b"width 2\nheight 2\nbackground [0,0,0]\nrect (1,1) (3,1) [1,1,1]";
    let img = parse_file(text).unwrap();
    match img.render() {
        Err(CustomError::Drawing(DrawingError::OutOfBounds { x, y })) => {
            // The first painted column past the canvas edge.
            assert_eq!((x, y), (2, 1));
        },
        other => panic!("expected an out-of-bounds drawing error, got {:?}", other),
    }
}

#[test]
fn rect_past_the_bottom_blames_the_first_row_outside() {
    let text = b"width 2\nheight 2\nbackground [0,0,0]\nrect (0,1) (0,3) [1,1,1]";
    let img = parse_file(text).unwrap();
    match img.render() {
        Err(CustomError::Drawing(DrawingError::OutOfBounds { x, y })) => {
            assert_eq!((x, y), (0, 2));
        },
        other => panic!("expected an out-of-bounds drawing error, got {:?}", other),
    }
}

#[test]
fn rect_entirely_off_canvas_blames_its_near_corner() {
    let text = b"width 2\nheight 2\nbackground [0,0,0]\nrect (4,5) (6,7) [1,1,1]";
    let img = parse_file(text).unwrap();
    match img.render() {
        Err(CustomError::Drawing(DrawingError::OutOfBounds { x, y })) => {
            assert_eq!((x, y), (4, 5));
        },
        other => panic!("expected an out-of-bounds drawing error, got {:?}", other),
    }
}

#[test]
fn later_pixel_overwrites_earlier_rect() {
    let text =
        b"width 2\nheight 1\nbackground [0,0,0]\nrect (0,0) (1,0) [7,7,7]\npixel (0,0) [9,9,9]";
    let img = parse_file(text).unwrap();
    let buf = img.render().unwrap();
    assert_eq!(buf.pixel(0, 0), Some(Pixel { r: 9, g: 9, b: 9, a: 255 }));
    assert_eq!(buf.pixel(1, 0), Some(Pixel { r: 7, g: 7, b: 7, a: 255 }));
}

#[test]
fn row_major_data_export_matches_pixels() {
    let text = b"width 2\nheight 2\nbackground [0,0,0]\npixel (1,0) [255,255,255]";
    let img = parse_file(text).unwrap();
    let buf = img.render().unwrap();
    let white = Pixel { r: 255, g: 255, b: 255, a: 255 };
    let black = Pixel { r: 0, g: 0, b: 0, a: 255 };
    let data = buf.into_data();
    assert_eq!(data, vec![black, white, black, black]);
}
