use moai_time::duration::Duration;
use moai_time::error::{ParseError, ParseFailure};
use moai_time::info::{GcodeInfo, GcodeLineInfo};
use moai_time::parser::{parse_lines, Parser};
use moai_time::pretty::PrettyDuration;

fn lines_of(text: &[&str]) -> Vec<Vec<u8>> {
    text.iter().map(|line| line.as_bytes().to_vec()).collect()
}

fn read(text: &[&str]) -> GcodeInfo {
    parse_lines(&lines_of(text)).unwrap()
}

fn refusal(text: &[&str]) -> ParseFailure {
    parse_lines(&lines_of(text)).unwrap_err()
}

fn totals(distance: u64, time: i64) -> GcodeLineInfo {
    GcodeLineInfo { distance, time }
}

#[test]
fn nothing_read() {
    let info = read(&[]);
    assert_eq!(info.layer_count(), 0);
    assert_eq!(info.slicer_estimated_duration(), None);
    assert_eq!(info.layer_change_time(), Duration::zero());
    assert_eq!(info.laser_time(), Duration::zero());
    assert_eq!(info.total_time(), Duration::zero());
}

#[test]
fn a_time_comment_declares_the_time() {
    let info = read(&[";TIME:1234"]);
    assert_eq!(info.slicer_estimated_duration(), Some(Duration::from_secs(1234)));
    assert_eq!(info.layer_count(), 0);
}

#[test]
fn the_placeholder_declares_nothing() {
    assert_eq!(read(&[";TIME:6666"]).slicer_estimated_duration(), None);
    assert_eq!(read(&[";TIME:+6666"]).slicer_estimated_duration(), None);
    assert_eq!(read(&[";TIME:006666"]).slicer_estimated_duration(), None);
}

#[test]
fn the_placeholder_leaves_an_earlier_time() {
    let info = read(&[";TIME:100", ";TIME:6666"]);
    assert_eq!(info.slicer_estimated_duration(), Some(Duration::from_secs(100)));
}

#[test]
fn numbers_next_to_the_placeholder_declare_a_time() {
    assert_eq!(read(&[";TIME:6665"]).slicer_estimated_duration(), Some(Duration::from_secs(6665)));
    assert_eq!(read(&[";TIME:6667"]).slicer_estimated_duration(), Some(Duration::from_secs(6667)));
    assert_eq!(read(&[";TIME:66660"]).slicer_estimated_duration(), Some(Duration::from_secs(66660)));
    assert_eq!(
        read(&[";TIME:4294967295"]).slicer_estimated_duration(),
        Some(Duration::from_secs(4_294_967_295))
    );
}

#[test]
fn a_declared_time_of_zero_is_not_an_absent_one() {
    let info = read(&[";TIME:0"]);
    assert_eq!(info.slicer_estimated_duration(), Some(Duration::zero()));
    assert!(info.slicer_estimated_duration().is_some());
}

#[test]
fn a_later_time_comment_replaces_an_earlier_one() {
    let info = read(&[";TIME:100", ";LAYER:0", ";TIME:200"]);
    assert_eq!(info.slicer_estimated_duration(), Some(Duration::from_secs(200)));
}

#[test]
fn a_feed_rate_word_alone_adds_nothing() {
    let info = read(&[";LAYER:0", "G1 F100000"]);
    assert_eq!(info.layer_count(), 1);
    assert_eq!(info.layer(0), Some(totals(0, 0)));
    assert_eq!(info.laser_time(), Duration::zero());
    assert_eq!(info.layer_change_time(), Duration::from_millis(9_500));
    assert_eq!(info.total_time(), Duration::from_millis(9_500));
}

#[test]
fn a_feed_rate_word_alone_sets_the_feed_rate() {
    let mut parser = Parser::new();
    assert_eq!(parser.feed_line(b";LAYER:0"), Ok(()));
    assert_eq!(parser.feed_line(b"G1 F100000"), Ok(()));
    assert_eq!(parser.feedrate(), 100_000_000_000);
    assert_eq!(parser.position(), (0, 0));
    assert_eq!(parser.feed_line(b"G1 X10"), Ok(()));
    assert_eq!(parser.position(), (10_000_000, 0));
    assert_eq!(parser.info().layer(0), Some(totals(10_000_000, 6_000_000_000)));
}

#[test]
fn a_move_adds_its_length_and_time() {
    // Sixty thousand micrometres per minute are one millimetre per second.
    let info = read(&[";LAYER:0", "G1 F60000 X3 Y4"]);
    assert_eq!(info.layers(), &[totals(5_000_000, 5_000_000_000)]);
    assert_eq!(info.laser_time(), Duration::from_secs(5));
    assert_eq!(info.layer_change_time(), Duration::from_millis(9_500));
    assert_eq!(info.total_time(), Duration::from_millis(14_500));
    assert_eq!(PrettyDuration(info.total_time()).to_string(), "14.5000 seconds");
}

#[test]
fn position_and_feed_rate_stay_from_line_to_line() {
    let info = read(&[
        ";LAYER:0",
        "G0 F60000 X10 Y0",
        "G1 Y10",
        "G1 X0",
        "G1 F120000 Y0",
    ]);
    assert_eq!(info.layers(), &[totals(40_000_000, 35_000_000_000)]);
    assert_eq!(info.laser_time(), Duration::from_secs(35));
}

#[test]
fn the_feed_rate_stays_from_layer_to_layer() {
    let info = read(&[";LAYER:0", "G1 F60000 X1", ";LAYER:1", "G1 X3"]);
    assert_eq!(info.layers(), &[totals(1_000_000, 1_000_000_000), totals(2_000_000, 2_000_000_000)]);
    assert_eq!(info.laser_time(), Duration::from_secs(3));
    assert_eq!(info.layer_change_time(), Duration::from_secs(19));
    assert_eq!(info.total_time(), Duration::from_secs(22));
}

#[test]
fn the_words_of_a_move_come_in_any_order() {
    let a = read(&[";LAYER:0", "G1 X3 Y4 F60000"]);
    let b = read(&[";LAYER:0", "G1 F60000 Y4 X3"]);
    let c = read(&[";LAYER:0", "G1 Y4 Z0.1 F60000 E3 X3"]);
    assert_eq!(a.layers(), &[totals(5_000_000, 5_000_000_000)]);
    assert_eq!(a.layers(), b.layers());
    assert_eq!(a.layers(), c.layers());
}

#[test]
fn travel_times_are_rounded_down_move_by_move() {
    // One millimetre at seven micrometres per minute.
    let info = read(&[";LAYER:0", "G1 F7 X1", "G1 X2"]);
    assert_eq!(info.layers(), &[totals(2_000_000, 17_142_857_142_856)]);
    assert_eq!(info.laser_time(), Duration::new(17_142, 857_142).unwrap());
}

#[test]
fn lengths_are_rounded_down() {
    let info = read(&[";LAYER:0", "G1 F60000 X1 Y1"]);
    assert_eq!(info.layers(), &[totals(1_414_213, 1_414_213_000)]);
    assert_eq!(info.laser_time(), Duration::new(1, 414_213).unwrap());
}

#[test]
fn moves_before_the_first_layer_count_for_nothing() {
    let info = read(&["G1 F60000 X100 Y100", "G0 X0 Y50", "G1 X7"]);
    assert_eq!(info.layer_count(), 0);
    assert_eq!(info.laser_time(), Duration::zero());
    assert_eq!(info.layer_change_time(), Duration::zero());
    assert_eq!(info.total_time(), Duration::zero());
}

#[test]
fn moves_before_the_first_layer_are_not_read() {
    // Neither the position nor the feed rate of such a move is kept, and a
    // word without a number is not looked at.
    let mut parser = Parser::new();
    assert_eq!(parser.feed_line(b"G1 F60000 X100 Y100"), Ok(()));
    assert_eq!(parser.feed_line(b"G1 Xbad Y"), Ok(()));
    assert_eq!(parser.position(), (0, 0));
    assert_eq!(parser.feedrate(), 0);
    assert_eq!(parser.current_layer(), None);
    assert_eq!(parser.feed_line(b";LAYER:0"), Ok(()));
    assert_eq!(parser.feed_line(b"G1 F60000 X3 Y4"), Ok(()));
    let info = parser.finish();
    assert_eq!(info.layers(), &[totals(5_000_000, 5_000_000_000)]);
}

#[test]
fn a_file_with_moves_before_and_after_the_first_layer() {
    let with_moves_before = read(&["G1 F30000 X50 Y50", ";LAYER:0", "G1 F60000 X3 Y4"]);
    let without = read(&[";LAYER:0", "G1 F60000 X3 Y4"]);
    assert_eq!(with_moves_before.layers(), without.layers());
    assert_eq!(with_moves_before.total_time(), without.total_time());
}

#[test]
fn skipped_layers_are_filled_in() {
    let info = read(&[";LAYER:0", "G1 F60000 X1", ";LAYER:3", "G1 X3"]);
    assert_eq!(info.layer_count(), 4);
    assert_eq!(info.layer(0), Some(totals(1_000_000, 1_000_000_000)));
    assert_eq!(info.layer(1), Some(totals(0, 0)));
    assert_eq!(info.layer(2), Some(totals(0, 0)));
    assert_eq!(info.layer(3), Some(totals(2_000_000, 2_000_000_000)));
    assert_eq!(info.layer(4), None);
    assert_eq!(info.layer_change_time(), Duration::from_secs(38));
    assert_eq!(info.laser_time(), Duration::from_secs(3));
    assert_eq!(info.total_time(), Duration::from_secs(41));
}

#[test]
fn a_layer_comment_alone_adds_no_layer() {
    let info = read(&[";LAYER:0", ";LAYER:1", ";LAYER:2"]);
    assert_eq!(info.layer_count(), 0);
    assert_eq!(info.layer_change_time(), Duration::zero());
}

#[test]
fn a_first_layer_above_zero_fills_the_layers_below() {
    let info = read(&[";LAYER:2", "G1 F60000 X1"]);
    assert_eq!(info.layers(), &[totals(0, 0), totals(0, 0), totals(1_000_000, 1_000_000_000)]);
    assert_eq!(info.layer_change_time(), Duration::from_millis(28_500));
}

#[test]
fn going_back_to_an_earlier_layer_adds_to_it() {
    let info = read(&[";LAYER:1", "G1 F60000 X1", ";LAYER:0", "G1 X3", ";LAYER:1", "G1 X6"]);
    assert_eq!(info.layers(), &[totals(2_000_000, 2_000_000_000), totals(4_000_000, 4_000_000_000)]);
}

#[test]
fn layer_changes_take_nine_and_a_half_seconds_each() {
    for count in [1u64, 2, 3, 10, 101] {
        let marker = format!(";LAYER:{}", count - 1);
        let info = read(&[marker.as_str(), "G1 F60000"]);
        assert_eq!(info.layer_count() as u64, count);
        assert_eq!(info.layer_change_time(), Duration::from_millis(9_500 * count));
        assert_eq!(info.laser_time(), Duration::zero());
        assert_eq!(info.total_time(), Duration::from_millis(9_500 * count));
    }
}

#[test]
fn the_whole_time_is_the_sum_of_its_parts() {
    let info = read(&[
        ";TIME:77",
        ";LAYER:0",
        "G1 F7 X1 Y2",
        "G1 X-3.25 Y8.125",
        ";LAYER:5",
        "G0 F123456 X0 Y0",
        "G1 X17.000001",
    ]);
    let sum = info.layer_change_time().checked_add(info.laser_time());
    assert_eq!(Some(info.total_time()), sum);
    assert_eq!(info.layer_change_time(), Duration::from_secs(57));
}

#[test]
fn other_lines_are_passed_over() {
    let info = read(&[
        "",
        "; a comment",
        ";FLAVOR:Marlin",
        ";LAYER_COUNT:3",
        "M106 S255",
        "G28",
        "G92 E0",
        "G2 X1 Y1 I1 J1",
        "   G1 X5",
        "G1",
        "g1 X5",
        ";LAYER:0",
        "M107",
        "G10",
    ]);
    assert_eq!(info.layer_count(), 0);
    assert_eq!(info.slicer_estimated_duration(), None);
}

#[test]
fn a_time_comment_without_a_number_is_refused() {
    for line in [";TIME:", ";TIME:abc", ";TIME:-5", ";TIME:12.5", ";TIME: 12", ";TIME:12 ", ";TIME:4294967296"] {
        assert_eq!(refusal(&[line]), ParseFailure { line: 0, error: ParseError::InvalidTime });
    }
}

#[test]
fn a_layer_comment_without_a_number_is_refused() {
    for line in [";LAYER:", ";LAYER:top", ";LAYER:-1", ";LAYER:1.0", ";LAYER: 1", ";LAYER:4294967296"] {
        assert_eq!(refusal(&[line]), ParseFailure { line: 0, error: ParseError::InvalidLayer });
    }
}

#[test]
fn a_move_with_a_bad_number_is_refused() {
    for line in [
        "G1 Xabc",
        "G1 X",
        "G1 X1 Y2 F",
        "G0 Y1..2",
        "G1 F1e",
        "G1 Xinf",
        "G1 YNaN",
        "G1 X1e13",
        "G1 X1000000000000.1",
    ] {
        assert_eq!(
            refusal(&[";LAYER:0", "G1 F60000", line]),
            ParseFailure { line: 2, error: ParseError::InvalidNumber }
        );
    }
}

#[test]
fn a_move_at_feed_rate_zero_is_refused() {
    assert_eq!(
        refusal(&[";LAYER:0", "G1 X1 Y1"]),
        ParseFailure { line: 1, error: ParseError::ZeroFeedrate }
    );
    assert_eq!(
        refusal(&[";LAYER:0", "G1 F60000 X1", "G1 F0 X2"]),
        ParseFailure { line: 2, error: ParseError::ZeroFeedrate }
    );
    assert_eq!(
        refusal(&[";LAYER:0", "G1 X0.000001"]),
        ParseFailure { line: 1, error: ParseError::ZeroFeedrate }
    );
    assert_eq!(
        refusal(&[";LAYER:0", "G1 F0.0000001 Y-1"]),
        ParseFailure { line: 1, error: ParseError::ZeroFeedrate }
    );
}

#[test]
fn a_move_that_stays_in_place_takes_no_time_at_feed_rate_zero() {
    let info = read(&[";LAYER:1", "G1 Z5", "G1 X0 Y0", "G1 F0", "G1 X0.0000001"]);
    assert_eq!(info.layers(), &[totals(0, 0), totals(0, 0)]);
    assert_eq!(info.laser_time(), Duration::zero());
    assert_eq!(info.total_time(), Duration::from_secs(19));
    let later = read(&[";LAYER:0", "G1 F60000 X1", "G1 F0", "G1 X1 Y0", "G1 F60000 X2"]);
    assert_eq!(later.layers(), &[totals(2_000_000, 2_000_000_000)]);
}

#[test]
fn a_bad_number_is_refused_before_a_feed_rate_of_zero() {
    assert_eq!(
        refusal(&[";LAYER:0", "G1 X1 Ybad"]),
        ParseFailure { line: 1, error: ParseError::InvalidNumber }
    );
}

#[test]
fn a_time_that_leaves_the_range_is_refused() {
    // A million kilometres at a millionth of a micrometre per minute.
    assert_eq!(
        refusal(&[";LAYER:0", "G1 F0.000001 X1000000000000"]),
        ParseFailure { line: 1, error: ParseError::TotalOutOfRange }
    );
    // Three moves of ten years each in one layer.
    let ten_years = "G1 F1 X5256";
    let back = "G1 X0";
    assert_eq!(
        read(&[";LAYER:0", ten_years, back, ten_years]).layer(0),
        Some(totals(15_768_000_000, 946_080_000_000_000_000))
    );
    assert_eq!(
        refusal(&[";LAYER:0", ten_years, back, ten_years, back]),
        ParseFailure { line: 4, error: ParseError::TotalOutOfRange }
    );
}

#[test]
fn a_distance_that_leaves_the_range_is_refused() {
    let far = "G1 F1000000000000 X1000000000000 Y1000000000000";
    let near = "G1 X-1000000000000 Y-1000000000000";
    let six = [";LAYER:0", "G1 F1000000000000", near, far, near, far, near, far];
    // The first move starts at the origin, the others cross the whole range.
    let info = read(&six);
    assert_eq!(
        info.layer(0).unwrap().distance,
        1_414_213_562_373_095_048 + 5 * 2_828_427_124_746_190_097
    );
    let mut eight = six.to_vec();
    eight.push(near);
    eight.push(far);
    assert_eq!(
        refusal(&eight),
        ParseFailure { line: 9, error: ParseError::TotalOutOfRange }
    );
}

#[test]
fn a_negative_feed_rate_takes_time_off() {
    let info = read(&[";LAYER:0", "G1 F-60000 X1"]);
    assert_eq!(info.layers(), &[totals(1_000_000, -1_000_000_000)]);
    assert_eq!(info.laser_time(), Duration::zero());
    assert_eq!(info.total_time(), Duration::from_millis(9_500));
    let mixed = read(&[";LAYER:0", "G1 F-60000 X1", "G1 F60000 X4"]);
    assert_eq!(mixed.layers(), &[totals(4_000_000, 2_000_000_000)]);
    assert_eq!(mixed.laser_time(), Duration::from_secs(2));
}

#[test]
fn nothing_after_a_refused_line_is_read() {
    let failure = refusal(&[";TIME:10", ";LAYER:zero", ";TIME:bad", "G1 Xbad"]);
    assert_eq!(failure, ParseFailure { line: 1, error: ParseError::InvalidLayer });
}

#[test]
fn a_refused_line_changes_nothing() {
    let mut parser = Parser::new();
    assert_eq!(parser.feed_line(b";TIME:50"), Ok(()));
    assert_eq!(parser.feed_line(b";LAYER:1"), Ok(()));
    assert_eq!(parser.feed_line(b"G1 F60000 X3 Y4"), Ok(()));
    assert_eq!(parser.feed_line(b"G1 X9 Y9 F0"), Err(ParseError::ZeroFeedrate));
    assert_eq!(parser.feed_line(b"G1 X9 Ynine"), Err(ParseError::InvalidNumber));
    assert_eq!(parser.feed_line(b"G1 F0.000001 X1000000"), Err(ParseError::TotalOutOfRange));
    assert_eq!(parser.feed_line(b";LAYER:"), Err(ParseError::InvalidLayer));
    assert_eq!(parser.feed_line(b";TIME:"), Err(ParseError::InvalidTime));
    assert_eq!(parser.position(), (3_000_000, 4_000_000));
    assert_eq!(parser.feedrate(), 60_000_000_000);
    assert_eq!(parser.current_layer(), Some(1));
    let info = parser.finish();
    assert_eq!(info.slicer_estimated_duration(), Some(Duration::from_secs(50)));
    assert_eq!(info.layers(), &[totals(0, 0), totals(5_000_000, 5_000_000_000)]);
}

#[test]
fn a_new_reader_has_read_nothing() {
    let parser = Parser::new();
    assert_eq!(parser.position(), (0, 0));
    assert_eq!(parser.feedrate(), 0);
    assert_eq!(parser.current_layer(), None);
    assert_eq!(parser.info().layer_count(), 0);
    assert_eq!(parser.info().slicer_estimated_duration(), None);
}

#[test]
fn reading_line_by_line_is_reading_all_lines() {
    let text = [";TIME:6666", ";LAYER:0", "G1 F60000 X3 Y4", ";LAYER:2", "G0 X0 Y0"];
    let mut parser = Parser::new();
    for line in text {
        assert_eq!(parser.feed_line(line.as_bytes()), Ok(()));
    }
    let by_line = parser.finish();
    let at_once = read(&text);
    assert_eq!(by_line.layers(), at_once.layers());
    assert_eq!(by_line.slicer_estimated_duration(), at_once.slicer_estimated_duration());
}

#[test]
fn reading_the_same_lines_again_gives_the_same() {
    let refused = [";LAYER:0", "G1 X1"];
    assert_eq!(parse_lines(&lines_of(&refused)), parse_lines(&lines_of(&refused)));
    let text = [
        ";TIME:321",
        "G1 F1 X1",
        ";LAYER:0",
        "G1 F7 X1.5 Y2.25",
        "G1 X-3 Y8",
        ";LAYER:4",
        "G0 F123456 X0 Y0",
    ];
    let first = read(&text);
    let second = read(&text);
    assert_eq!(first, second);
    assert_eq!(first.layers(), second.layers());
    assert_eq!(first.slicer_estimated_duration(), second.slicer_estimated_duration());
    assert_eq!(first.total_time(), second.total_time());
    assert_eq!(first.laser_time(), second.laser_time());
    assert_eq!(first.layer_change_time(), second.layer_change_time());
    assert_eq!(
        PrettyDuration(first.total_time()).to_string(),
        PrettyDuration(second.total_time()).to_string()
    );
    assert_eq!(first.slicer_estimated_duration(), Some(Duration::from_secs(321)));
    assert_eq!(first.layer_count(), 5);
}

#[test]
fn adding_moves_by_hand() {
    let mut info = GcodeInfo::new();
    assert_eq!(info.add_move(2, 10, 20), Ok(()));
    assert_eq!(info.add_move(0, 1, -2), Ok(()));
    assert_eq!(info.add_move(2, 5, 7), Ok(()));
    assert_eq!(info.layers(), &[totals(1, -2), totals(0, 0), totals(15, 27)]);
    info.set_slicer_estimate(6666);
    assert_eq!(info.slicer_estimated_duration(), Some(Duration::from_secs(6666)));
    assert_eq!(info.layers().len(), 3);
}

#[test]
fn adding_a_move_that_leaves_the_range_changes_nothing() {
    let limit: i64 = 1_000_000_000_000_000_000;
    let mut info = GcodeInfo::new();
    assert_eq!(info.add_move(0, u64::MAX - 1, limit as i128), Ok(()));
    assert_eq!(info.add_move(0, 2, 0), Err(ParseError::TotalOutOfRange));
    assert_eq!(info.add_move(0, 0, 1), Err(ParseError::TotalOutOfRange));
    assert_eq!(info.add_move(3, 0, limit as i128 + 1), Err(ParseError::TotalOutOfRange));
    assert_eq!(info.add_move(3, 0, -(limit as i128) - 1), Err(ParseError::TotalOutOfRange));
    assert_eq!(info.add_move(3, 0, i128::MAX), Err(ParseError::TotalOutOfRange));
    assert_eq!(info.add_move(3, 0, i128::MIN), Err(ParseError::TotalOutOfRange));
    assert_eq!(info.layers(), &[totals(u64::MAX - 1, limit)]);
    assert_eq!(info.add_move(0, 1, -2 * limit as i128), Ok(()));
    assert_eq!(info.layers(), &[totals(u64::MAX, -limit)]);
    assert_eq!(info.laser_time(), Duration::zero());
}

#[test]
fn the_laser_time_is_cut_to_whole_microseconds() {
    let mut info = GcodeInfo::new();
    assert_eq!(info.add_move(0, 0, 1_999), Ok(()));
    assert_eq!(info.laser_time(), Duration::from_micros(1));
    assert_eq!(info.add_move(1, 0, 999_999_000), Ok(()));
    assert_eq!(info.laser_time(), Duration::from_micros(1_000_000));
    assert_eq!(info.add_move(1, 0, 1), Ok(()));
    assert_eq!(info.laser_time(), Duration::from_micros(1_000_001));
    assert_eq!(info.total_time(), Duration::from_micros(20_000_001));
}

#[test]
fn equal_tables_and_declared_times_are_equal() {
    let a = read(&[";TIME:5", ";LAYER:1", "G1 F60000 X1"]);
    let b = read(&[";LAYER:1", "G1 F60000 Y1", ";TIME:5"]);
    assert_eq!(a, b);
    assert_ne!(a, read(&[";TIME:6", ";LAYER:1", "G1 F60000 X1"]));
    assert_ne!(a, read(&[";LAYER:1", "G1 F60000 X1"]));
    assert_ne!(a, read(&[";TIME:5", ";LAYER:1", "G1 F60000 X2"]));
    assert_ne!(a, read(&[";TIME:5", ";LAYER:2", "G1 F60000 X1"]));
    assert_ne!(a, read(&[";TIME:5", ";LAYER:0", "G1 F60000 X1"]));
    assert_ne!(a, read(&[";TIME:5", ";LAYER:1", "G1 F120000 X1"]));
    assert_eq!(GcodeInfo::new(), read(&[";TIME:6666", "G1 X1"]));
}

#[test]
fn each_reason_has_its_message() {
    assert_eq!(ParseError::InvalidTime.message(), "gcode contains invalid ';TIME:' estimate");
    assert_eq!(ParseError::InvalidLayer.message(), "gcode contains invalid ';LAYER:' number");
    assert_eq!(
        ParseError::InvalidNumber.message(),
        "move has an X, Y or F word without a valid number"
    );
    assert_eq!(
        ParseError::ZeroFeedrate.message(),
        "move changes the position at a feed rate of zero"
    );
    assert_eq!(
        ParseError::TotalOutOfRange.message(),
        "distance or time of a layer is out of range"
    );
}

#[test]
fn a_move_may_give_its_values_with_an_exponent() {
    let info = read(&[";LAYER:0", "G1 X1e3 F60000"]);
    assert_eq!(info.layers(), &[totals(1_000_000_000, 1_000_000_000_000)]);
    assert_eq!(info.laser_time(), Duration::from_secs(1_000));
    let same = read(&[";LAYER:0", "G1 X1000 F6E4"]);
    assert_eq!(info, same);
    let small = read(&[";LAYER:0", "G1 F6e4 X30e-1 Y0.04E+2"]);
    assert_eq!(small.layers(), &[totals(5_000_000, 5_000_000_000)]);
}

#[test]
fn a_no_break_space_parts_the_words_of_a_move() {
    let info = read(&[";LAYER:0", "G1 F60000", "G1 X3\u{a0}Y4"]);
    assert_eq!(info.layers(), &[totals(5_000_000, 5_000_000_000)]);
    assert_eq!(info, read(&[";LAYER:0", "G1 F60000", "G1 X3 Y4"]));
}
