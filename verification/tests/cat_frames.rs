use asciinema::asciicast::{Event, Header};
use asciinema::cli::FrameSpec;
use asciinema::cmd::cat_frames::{header_line, select, select_results, write_terminal, Selection, TimeSel};
use asciinema::frames::{self, Frame, FrameKind};

// The recording used here has frame times 0.5, 1.0, 2.0, 3.0, 4.0 (an input
// event at 2.5s is not a frame): red output, more output, a marker, a
// resize to 8x3 and a last output.
fn all_frames() -> Vec<Frame> {
    let header = Header {
        term_cols: 10,
        term_rows: 4,
        ..Default::default()
    };

    let events = vec![
        Event::output(500_000, "\x1b[31mred\x1b[0m".to_owned()),
        Event::output(1_000_000, " text".to_owned()),
        Event::marker(2_000_000, "step 1".to_owned()),
        Event::input(2_500_000, "x".to_owned()),
        Event::resize(3_000_000, (8, 3)),
        Event::output(4_000_000, "\r\nbye".to_owned()),
    ];

    frames::frames(&header, events)
}

fn micros(secs: f64) -> u128 {
    (secs * 1_000_000.0).round() as u128
}

fn point(secs: f64) -> TimeSel {
    TimeSel::Point(micros(secs))
}

fn range(a: f64, b: f64) -> TimeSel {
    TimeSel::Range(micros(a), micros(b))
}

fn frame_spec(ranges: &[(usize, usize)]) -> Vec<FrameSpec> {
    vec![FrameSpec(ranges.to_vec())]
}

fn selected_frames(frame_specs: Vec<FrameSpec>, times: Vec<TimeSel>) -> Vec<Frame> {
    let selection = Selection::new(&frame_specs, times);
    select(all_frames(), &selection)
}

fn selected_numbers(frame_specs: Vec<FrameSpec>, times: Vec<TimeSel>) -> Vec<usize> {
    selected_frames(frame_specs, times)
        .iter()
        .map(|frame| frame.number)
        .collect()
}

#[test]
fn select_by_frame_number() {
    assert_eq!(
        selected_numbers(frame_spec(&[(1, 1), (3, 4)]), vec![]),
        vec![1, 3, 4]
    );

    // a range extending past the last frame simply yields what exists
    assert_eq!(
        selected_numbers(frame_spec(&[(4, 100)]), vec![]),
        vec![4, 5]
    );
}

#[test]
fn select_by_time_point() {
    // the frame displayed at a time is the last one rendered at or before it
    assert_eq!(selected_numbers(vec![], vec![point(2.5)]), vec![3]);
    assert_eq!(selected_numbers(vec![], vec![point(2.0)]), vec![3]);

    // a time before the first frame selects nothing
    assert_eq!(
        selected_numbers(vec![], vec![point(0.4)]),
        Vec::<usize>::new()
    );
}

#[test]
fn select_by_time_range() {
    // frames within the range, plus the frame displayed at its start and the
    // first frame rendered at or after its end
    assert_eq!(
        selected_numbers(vec![], vec![range(1.5, 2.5)]),
        vec![2, 3, 4]
    );

    // exact boundary frames are included without extending further
    assert_eq!(selected_numbers(vec![], vec![range(1.0, 2.0)]), vec![2, 3]);

    // a range past the last frame has no frame at or after its end
    assert_eq!(
        selected_numbers(vec![], vec![range(3.5, 100.0)]),
        vec![4, 5]
    );
}

#[test]
fn select_unions_frame_and_time() {
    // combined selectors are the union, printed once in frame order
    assert_eq!(
        selected_numbers(frame_spec(&[(1, 1)]), vec![point(2.5)]),
        vec![1, 3]
    );
}

#[test]
fn last_frame_is_selectable_by_time() {
    // the final frame has no successor; a point at or after it still selects it
    assert_eq!(selected_numbers(vec![], vec![point(9.0)]), vec![5]);
}

#[test]
fn terminal_output() {
    let frames = selected_frames(frame_spec(&[(1, 1), (3, 3)]), vec![]);

    let (output, count) = write_terminal(&frames, false);

    assert_eq!(count, 2);
    assert_eq!(
        output,
        "--- frame 1 @ 0.500000 ---\n\
         red\n\
         --- frame 3 @ 2.000000 (marker: step 1) ---\n\
         red text\n"
    );
}

#[test]
fn terminal_output_with_escapes() {
    let frames = selected_frames(frame_spec(&[(1, 1)]), vec![]);

    let (output, _) = write_terminal(&frames, true);

    assert_eq!(output, "--- frame 1 @ 0.500000 ---\n\x1b[0;31mred\x1b[0m\n");
}

#[test]
fn header_line_escapes_marker_labels() {
    let frame = Frame {
        number: 1,
        time: 1_000_000,
        delta_time: 1_000_000,
        changed_cells: 0,
        kind: FrameKind::Marker("a\x1b]0;x\x07b".to_owned()),
        screen: all_frames().pop().unwrap().screen,
    };

    let header = header_line(&frame);

    assert!(!header.contains('\x1b'), "escape byte leaked: {header:?}");
    assert!(header.contains("\\u{1b}]0;x\\u{7}b"));
}

#[test]
fn resize_header_line() {
    let frames = selected_frames(frame_spec(&[(4, 4)]), vec![]);
    assert_eq!(
        header_line(&frames[0]),
        "--- frame 4 @ 3.000000 (resize: 8x3) ---"
    );
}

#[test]
fn selection_limits() {
    let selection = Selection::new(&frame_spec(&[(2, 3), (1, 7)]), vec![point(1.0), range(0.5, 4.0)]);
    assert_eq!(selection.max_frame, 7);
    assert_eq!(selection.max_time, Some(4_000_000));
    assert!(!selection.done(6, 5_000_000, None));
    assert!(selection.done(7, 4_000_000, None));
    assert!(selection.done(7, 4_000_000, Some(4_000_001)));
    assert!(!selection.done(7, 4_000_000, Some(4_000_000)));
    assert!(!selection.done(7, 3_999_999, None));
}

#[test]
fn point_selects_the_last_of_tied_frames() {
    let header = Header {
        term_cols: 10,
        term_rows: 4,
        ..Default::default()
    };

    let events = vec![
        Event::output(1_000_000, "a".to_owned()),
        Event::output(2_000_000, "b".to_owned()),
        Event::output(2_000_000, "c".to_owned()),
        Event::output(3_000_000, "d".to_owned()),
    ];

    let selection = Selection::new(&vec![], vec![point(2.0)]);
    let numbers: Vec<usize> = select(frames::frames(&header, events), &selection)
        .iter()
        .map(|frame| frame.number)
        .collect();

    assert_eq!(numbers, vec![3]);
}

#[test]
fn read_errors_pass_through_until_the_selection_ends() {
    let mut frames = all_frames().into_iter();
    let items: Vec<Result<Frame, String>> = vec![
        Ok(frames.next().unwrap()),
        Err("a".to_owned()),
        Ok(frames.next().unwrap()),
        Err("b".to_owned()),
        Ok(frames.next().unwrap()),
    ];
    let selection = Selection::new(&frame_spec(&[(2, 2)]), vec![]);
    let out = select_results(items, &selection);

    assert_eq!(out.len(), 2);
    assert!(matches!(&out[0], Err(e) if e == "a"));
    assert!(matches!(&out[1], Ok(f) if f.number == 2));
}
