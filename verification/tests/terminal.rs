use marten::terminal::{background_update, poll_timeout_micros, should_draw};

#[test]
fn osc_11_uses_the_rgb_theme_background() {
    let (output, current) = background_update(Some((245, 239, 228)), None);

    assert_eq!(output, b"\x1b]11;#f5efe4\x1b\\");
    assert_eq!(current, Some((245, 239, 228)));
}

#[test]
fn unchanged_background_is_not_emitted_again() {
    let (output, current) = background_update(Some((22, 17, 13)), Some((22, 17, 13)));

    assert!(output.is_empty());
    assert_eq!(current, Some((22, 17, 13)));
}

#[test]
fn disabled_background_sync_emits_nothing() {
    let (output, current) = background_update(None, None);

    assert!(output.is_empty());
    assert_eq!(current, None);
}

#[test]
fn reset_color_restores_a_previously_changed_background() {
    let (output, current) = background_update(None, Some((22, 17, 13)));

    assert_eq!(output, b"\x1b]111\x1b\\");
    assert_eq!(current, None);
}

#[test]
fn a_new_colour_replaces_the_old_one() {
    let (output, current) = background_update(Some((0, 10, 255)), Some((1, 2, 3)));
    assert_eq!(output, b"\x1b]11;#000aff\x1b\\");
    assert_eq!(current, Some((0, 10, 255)));
}

#[test]
fn frames_wait_for_their_budget() {
    assert!(!should_draw(true, 10_000));
    assert!(should_draw(true, 16_000));
    assert!(!should_draw(false, 99_000));
    assert_eq!(poll_timeout_micros(true, 10_000), 6_000);
    assert_eq!(poll_timeout_micros(true, 20_000), 0);
    assert_eq!(poll_timeout_micros(false, 0), 50_000);
}
