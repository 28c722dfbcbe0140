use orchid::color::username_to_color;

#[test]
fn color_of_alice_is_stable() {
    assert_eq!(username_to_color("alice"), (232, 98, 98));
    assert_eq!(username_to_color("alice"), (232, 98, 98));
}

#[test]
fn color_of_bob_is_stable() {
    assert_eq!(username_to_color("bob"), (98, 232, 181));
}

#[test]
fn color_of_single_letter() {
    assert_eq!(username_to_color("a"), (150, 232, 98));
}

#[test]
fn color_of_empty_name() {
    assert_eq!(username_to_color(""), (232, 98, 98));
}

#[test]
fn different_names_usually_differ() {
    assert_ne!(username_to_color("alice"), username_to_color("bob"));
    assert_ne!(username_to_color("bob"), username_to_color("testuser"));
}

#[test]
fn channels_stay_in_byte_range() {
    for name in ["x", "yz", "some_user_123", "UPPER", "émoji"] {
        let (r, g, b) = username_to_color(name);
        for v in [r, g, b] {
            assert!(v == 98 || v == 232 || (98..=232).contains(&v));
        }
    }
}
