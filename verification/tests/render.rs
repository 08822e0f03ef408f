use single_linked::render::render_chain;

fn parts_of(parts: &[&str]) -> Vec<String> {
    parts.iter().map(|part| part.to_string()).collect()
}

#[test]
fn line_of_no_value_is_a_line_feed() {
    assert_eq!(render_chain(&parts_of(&[])), "\n");
}

#[test]
fn line_of_one_value_has_no_marker() {
    assert_eq!(render_chain(&parts_of(&["7"])), " 7 \n");
}

#[test]
fn line_of_two_values_has_one_marker() {
    assert_eq!(render_chain(&parts_of(&["1", "10"])), " 1 -> 10 \n");
}

#[test]
fn line_of_many_values_has_a_marker_between_neighbours() {
    assert_eq!(
        render_chain(&parts_of(&["-5", "100", "", "abc"])),
        " -5 -> 100 ->  -> abc \n"
    );
}
