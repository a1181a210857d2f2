use lang::encoder::Encoder;
use lang::statements::Statement;

#[test]
fn encode_three_then_one() {
    let steps = Encoder::new("\u{3}\u{1}").encode();
    let expected = vec![
        Statement::Increment,
        Statement::Increment,
        Statement::Increment,
        Statement::Decrement,
        Statement::Decrement,
    ];
    assert_eq!(steps, expected);

    // Applying the blocks to an independent cell started at 0 reproduces
    // the target values after each character's adjustment block.
    let mut replay = Encoder::new("");
    replay.apply(&steps[0..3]);
    assert_eq!(replay.cell(), 3);
    replay.apply(&steps[3..5]);
    assert_eq!(replay.cell(), 1);
}

#[test]
fn encode_empty_text() {
    assert_eq!(Encoder::new("").encode(), vec![]);
}

#[test]
fn encode_prefers_minimal_direction() {
    // 200 is closer to 0 going down: 56 decrements, not 200 increments.
    let steps = Encoder::new("\u{c8}").encode();
    assert_eq!(steps.len(), 56);
    assert!(steps.iter().all(|s| *s == Statement::Decrement));

    let mut replay = Encoder::new("");
    replay.apply(&steps);
    assert_eq!(replay.cell(), 200);
}

#[test]
fn encode_half_range_uses_decrements() {
    // A difference of 128 has no positive representative in signed eight
    // bits; the encoder takes 128 decrements.
    let steps = Encoder::new("\u{80}").encode();
    assert_eq!(steps.len(), 128);
    assert!(steps.iter().all(|s| *s == Statement::Decrement));

    let mut replay = Encoder::new("");
    replay.apply(&steps);
    assert_eq!(replay.cell(), 128);
}

#[test]
fn encode_tracks_previous_value() {
    // "AC": 65 increments, then 2 more from 65 to 67.
    let steps = Encoder::new("AC").encode();
    assert_eq!(steps.len(), 67);
    assert!(steps.iter().all(|s| *s == Statement::Increment));
}

#[test]
fn apply_ignores_other_statements() {
    let mut encoder = Encoder::new("");
    encoder.apply(&[
        Statement::Increment,
        Statement::MoveRight,
        Statement::Output,
        Statement::Increment,
    ]);
    assert_eq!(encoder.cell(), 2);
}

#[test]
fn apply_wraps_both_ways() {
    let mut encoder = Encoder::new("");
    encoder.apply(&[Statement::Decrement]);
    assert_eq!(encoder.cell(), 255);
    encoder.apply(&[Statement::Increment, Statement::Increment]);
    assert_eq!(encoder.cell(), 1);
}
