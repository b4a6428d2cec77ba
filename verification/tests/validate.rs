use custom_image::error::CustomError;
use custom_image::error::NumberOverflow;
use custom_image::error::ParseFailure;
use custom_image::read::RawCommand;
use custom_image::transform::transform_coordinate;
use custom_image::transform::transform_raw;
use custom_image::transform::transform_raw_pixel;
use custom_image::Command;
use custom_image::ImageFill;
use custom_image::Pixel;

#[test]
fn three_values_mean_rgb_with_opaque_alpha() {
    let px = transform_raw_pixel(vec![Ok(10), Ok(20), Ok(30)]).unwrap();
    assert_eq!(px, Pixel { r: 10, g: 20, b: 30, a: 255 });
}

#[test]
fn four_values_mean_alpha_first() {
    let px = transform_raw_pixel(vec![Ok(1), Ok(2), Ok(3), Ok(4)]).unwrap();
    assert_eq!(px, Pixel { r: 2, g: 3, b: 4, a: 1 });
}

#[test]
fn color_of_length_two_is_malformed() {
    match transform_raw_pixel(vec![Ok(1), Ok(2)]) {
        Err(CustomError::Parsing(ParseFailure::ColorLength { values })) => {
            assert_eq!(values, vec![Ok(1), Ok(2)]);
        },
        other => panic!("expected a malformed-color error, got {:?}", other),
    }
}

#[test]
fn color_of_length_five_is_malformed() {
    match transform_raw_pixel(vec![Ok(1), Ok(2), Ok(3), Ok(4), Ok(5)]) {
        Err(CustomError::Parsing(ParseFailure::ColorLength { values })) => {
            assert_eq!(values.len(), 5);
        },
        other => panic!("expected a malformed-color error, got {:?}", other),
    }
}

#[test]
fn empty_color_is_malformed() {
    assert!(matches!(
        transform_raw_pixel(vec![]),
        Err(CustomError::Parsing(ParseFailure::ColorLength { .. }))
    ));
}

#[test]
fn overflowed_channel_is_a_numeric_range_error() {
    match transform_raw_pixel(vec![Ok(0), Err(NumberOverflow), Ok(0)]) {
        Err(CustomError::ParseNumberValue(NumberOverflow)) => {},
        other => panic!("expected a numeric-range error, got {:?}", other),
    }
}

#[test]
fn length_check_comes_before_element_checks() {
    // A five-element array with an overflowed element is reported as
    // malformed, not as a numeric failure: the length is checked first.
    assert!(matches!(
        transform_raw_pixel(vec![Ok(1), Err(NumberOverflow), Ok(3), Ok(4), Ok(5)]),
        Err(CustomError::Parsing(ParseFailure::ColorLength { .. }))
    ));
}

#[test]
fn coordinates_resolve_componentwise() {
    assert_eq!(transform_coordinate((Ok(3), Ok(4))).unwrap(), (3, 4));
    assert!(matches!(
        transform_coordinate((Err(NumberOverflow), Ok(4))),
        Err(CustomError::ParseNumberValue(NumberOverflow))
    ));
    assert!(matches!(
        transform_coordinate((Ok(3), Err(NumberOverflow))),
        Err(CustomError::ParseNumberValue(NumberOverflow))
    ));
}

#[test]
fn whole_document_resolves_in_order() {
    let commands = vec![
        RawCommand::DrawPixel { position: (Ok(0), Ok(1)), color: vec![Ok(1), Ok(2), Ok(3)] },
        RawCommand::DrawRect {
            corner_position_1: (Ok(2), Ok(3)),
            corner_position_2: (Ok(4), Ok(5)),
            color: vec![Ok(9), Ok(8), Ok(7), Ok(6)],
        },
    ];
    let img = transform_raw(Ok(6), Ok(7), vec![Ok(0), Ok(0), Ok(0)], commands).unwrap();
    assert_eq!(img.width, 6);
    assert_eq!(img.height, 7);
    match &img.data {
        ImageFill::Sparse((commands, background)) => {
            assert_eq!(*background, Pixel { r: 0, g: 0, b: 0, a: 255 });
            assert_eq!(
                commands.as_slice(),
                &[
                    Command::DrawPixel {
                        position: (0, 1),
                        color: Pixel { r: 1, g: 2, b: 3, a: 255 },
                    },
                    Command::DrawRect {
                        corner_position_1: (2, 3),
                        corner_position_2: (4, 5),
                        color: Pixel { r: 8, g: 7, b: 6, a: 9 },
                    },
                ]
            );
        },
    }
}

#[test]
fn overflowed_width_stops_validation() {
    match transform_raw(Err(NumberOverflow), Ok(7), vec![Ok(0), Ok(0), Ok(0)], vec![]) {
        Err(CustomError::ParseNumberValue(NumberOverflow)) => {},
        other => panic!("expected a numeric-range error, got {:?}", other),
    }
}

#[test]
fn bad_command_color_stops_validation() {
    let commands = vec![RawCommand::DrawPixel {
        position: (Ok(0), Ok(0)),
        color: vec![Ok(1), Ok(2)],
    }];
    assert!(matches!(
        transform_raw(Ok(2), Ok(2), vec![Ok(0), Ok(0), Ok(0)], commands),
        Err(CustomError::Parsing(ParseFailure::ColorLength { .. }))
    ));
}
