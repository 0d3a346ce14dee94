use iced_palette::navigate_down;
use iced_palette::navigate_up;

#[test]
fn test_navigate_up_wrapping() {
    assert_eq!(navigate_up(0, 5), 4); // Wrap to end
    assert_eq!(navigate_up(3, 5), 2); // Normal
    assert_eq!(navigate_up(0, 0), 0); // Empty list
}

#[test]
fn test_navigate_down_wrapping() {
    assert_eq!(navigate_down(4, 5), 0); // Wrap to start
    assert_eq!(navigate_down(2, 5), 3); // Normal
    assert_eq!(navigate_down(0, 0), 0); // Empty list
}

#[test]
fn navigate_up_on_empty_list_ignores_cursor() {
    assert_eq!(navigate_up(7, 0), 0);
}

#[test]
fn navigate_down_on_empty_list_ignores_cursor() {
    assert_eq!(navigate_down(7, 0), 0);
}

#[test]
fn navigate_down_past_end_wraps() {
    assert_eq!(navigate_down(9, 5), 0);
}

#[test]
fn single_entry_list_stays_put() {
    assert_eq!(navigate_up(0, 1), 0);
    assert_eq!(navigate_down(0, 1), 0);
}
