use slipcase_desktop::system_theme::{number_inside, scheme_of, Answer, Scheme};

#[test]
fn no_preference_is_light_because_that_is_what_gnome_sends_for_light() {
    assert_eq!(scheme_of(0), Scheme::Light);
}

#[test]
fn one_is_dark_and_two_is_light() {
    assert_eq!(scheme_of(1), Scheme::Dark);
    assert_eq!(scheme_of(2), Scheme::Light);
}

#[test]
fn a_value_the_specification_does_not_define_is_light() {
    for unknown in [3, 4, 99, u32::MAX] {
        assert_eq!(
            scheme_of(unknown),
            Scheme::Light,
            "color-scheme {unknown} should not darken the window"
        );
    }
}

fn boxed(depth: usize, inner: Answer) -> Answer {
    let mut a = inner;
    for _ in 0..depth {
        a = Answer::Boxed(Box::new(a));
    }
    a
}

#[test]
fn a_number_is_found_inside_up_to_three_variants() {
    assert_eq!(number_inside(&Answer::Number(1)), Some(1));
    assert_eq!(number_inside(&boxed(1, Answer::Number(2))), Some(2));
    assert_eq!(number_inside(&boxed(3, Answer::Number(0))), Some(0));
    assert_eq!(number_inside(&boxed(4, Answer::Number(1))), None);
    assert_eq!(number_inside(&Answer::Other), None);
    assert_eq!(number_inside(&boxed(2, Answer::Other)), None);
}
