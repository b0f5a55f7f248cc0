use raycaster::cli::output_path;

fn args(list: &[&str]) -> Vec<String> {
    list.iter().map(|a| a.to_string()).collect()
}

#[test]
fn output_path_defaults_without_an_argument() {
    assert_eq!(output_path(&args(&["raycaster"])), "out.png");
}

#[test]
fn output_path_is_the_one_argument() {
    assert_eq!(output_path(&args(&["raycaster", "scene.png"])), "scene.png");
}

#[test]
fn output_path_defaults_with_more_than_one_argument() {
    assert_eq!(output_path(&args(&["raycaster", "a.png", "b.png"])), "out.png");
}

#[test]
fn output_path_defaults_on_an_empty_command_line() {
    assert_eq!(output_path(&args(&[])), "out.png");
}
