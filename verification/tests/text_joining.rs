use voronoi::text::{join_strings, vec_to_s};

#[test]
fn vec_to_s_joins_numbers() {
    assert_eq!(vec_to_s(&vec![1, 2, 3], ", "), "1, 2, 3");
}

#[test]
fn vec_to_s_of_nothing_is_empty() {
    let nothing: Vec<u32> = Vec::new();
    assert_eq!(vec_to_s(&nothing, ","), "");
}

#[test]
fn vec_to_s_of_one_value_has_no_delimiter() {
    assert_eq!(vec_to_s(&vec!["only"], ","), "only");
}

#[test]
fn vec_to_s_skips_the_delimiter_while_nothing_is_written() {
    assert_eq!(vec_to_s(&vec!["", "a", "b"], "-"), "a-b");
    assert_eq!(vec_to_s(&vec!["a", "", "b"], "-"), "a--b");
}

#[test]
fn join_strings_joins_strings() {
    let parts = vec![String::from("x"), String::from("yz"), String::from("")];
    assert_eq!(join_strings(&parts, "+"), "x+yz+");
}
