use klask::output::{decode_chunk, encode_progress, OutputPayload};

const M: char = '\u{5FFFE}';

fn text_of(p: &OutputPayload) -> &str {
    match p {
        OutputPayload::Text(t) => t.as_str(),
        OutputPayload::ProgressBar { .. } => panic!("expected text"),
    }
}

fn bar_of(p: &OutputPayload) -> (&str, &str) {
    match p {
        OutputPayload::ProgressBar { description, raw_value } => {
            (description.as_str(), raw_value.as_str())
        }
        OutputPayload::Text(_) => panic!("expected a progress bar"),
    }
}

#[test]
fn progress_message_decodes_and_updates_in_place() {
    let mut segments: Vec<(u64, OutputPayload)> = Vec::new();
    let chunk = format!("hello{M}1{M}progress-bar{M}desc{M}0.5{M}\nworld");
    decode_chunk(&mut segments, &chunk);
    assert_eq!(segments.len(), 3);
    assert_eq!(segments[0].0, 0);
    assert_eq!(text_of(&segments[0].1), "hello");
    assert_eq!(segments[1].0, 1);
    assert_eq!(bar_of(&segments[1].1), ("desc", "0.5"));
    assert_eq!(segments[2].0, 0);
    assert_eq!(text_of(&segments[2].1), "world");

    // a repeated id replaces the bar where it stands instead of
    // appending a new segment
    let chunk = format!("{M}1{M}progress-bar{M}desc{M}1.0{M}\n");
    decode_chunk(&mut segments, &chunk);
    assert_eq!(segments.len(), 3);
    assert_eq!(segments[1].0, 1);
    assert_eq!(bar_of(&segments[1].1), ("desc", "1.0"));
    assert_eq!(text_of(&segments[2].1), "world");
}

#[test]
fn different_ids_make_different_bars() {
    let mut segments: Vec<(u64, OutputPayload)> = Vec::new();
    let chunk = format!("{M}1{M}progress-bar{M}one{M}0.1{M}\n{M}2{M}progress-bar{M}two{M}0.2{M}\n");
    decode_chunk(&mut segments, &chunk);
    assert_eq!(segments.len(), 2);
    assert_eq!(bar_of(&segments[0].1), ("one", "0.1"));
    assert_eq!(bar_of(&segments[1].1), ("two", "0.2"));
}

#[test]
fn malformed_messages_pass_through_as_text() {
    // a non-numeric id is not a control message
    let mut segments: Vec<(u64, OutputPayload)> = Vec::new();
    let chunk = format!("a{M}b");
    decode_chunk(&mut segments, &chunk);
    assert_eq!(segments.len(), 2);
    assert_eq!(text_of(&segments[0].1), "a");
    assert_eq!(text_of(&segments[1].1), "b");

    // an unknown kind is not a control message
    let mut segments: Vec<(u64, OutputPayload)> = Vec::new();
    let chunk = format!("{M}1{M}spinner{M}desc{M}0.5{M}\n");
    decode_chunk(&mut segments, &chunk);
    assert!(segments.iter().all(|(id, p)| *id == 0 && matches!(p, OutputPayload::Text(_))));

    // a non-numeric progress value is not a control message
    let mut segments: Vec<(u64, OutputPayload)> = Vec::new();
    let chunk = format!("{M}1{M}progress-bar{M}desc{M}NaN{M}\n");
    decode_chunk(&mut segments, &chunk);
    assert!(segments.iter().all(|(id, p)| *id == 0 && matches!(p, OutputPayload::Text(_))));

    // too few fields at the end of a chunk are plain text
    let mut segments: Vec<(u64, OutputPayload)> = Vec::new();
    let chunk = format!("{M}1{M}progress-bar{M}desc");
    decode_chunk(&mut segments, &chunk);
    assert!(segments.iter().all(|(id, p)| *id == 0 && matches!(p, OutputPayload::Text(_))));
}

#[test]
fn empty_pieces_are_dropped() {
    let mut segments: Vec<(u64, OutputPayload)> = Vec::new();
    decode_chunk(&mut segments, "");
    assert_eq!(segments.len(), 0);
}

#[test]
fn encode_frames_every_field_and_spaces_newlines() {
    let frame = encode_progress(7, "two\nlines", "0.25");
    assert_eq!(frame, format!("{M}7{M}progress-bar{M}two lines{M}0.25{M}\n"));
}

#[test]
fn encode_then_decode_round_trip() {
    let frame = encode_progress(42, "working", "0.75");
    let mut segments: Vec<(u64, OutputPayload)> = Vec::new();
    decode_chunk(&mut segments, &frame);
    assert_eq!(segments.len(), 1);
    assert_eq!(segments[0].0, 42);
    assert_eq!(bar_of(&segments[0].1), ("working", "0.75"));
}
