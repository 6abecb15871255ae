use dirwatch::cli::{find_flag, Cli};

fn args(list: &[&str]) -> Vec<String> {
    list.iter().map(|s| s.to_string()).collect()
}

#[test]
fn parse_uses_defaults_without_flags() {
    let c = Cli::parse(&args(&["dirwatch"]));
    assert_eq!(c.dir_watch, ".");
    assert_eq!(c.dir_serve, ".");
    assert_eq!(c.cmd, "");
    assert_eq!(c.port, "8080");
}

#[test]
fn parse_takes_the_value_after_each_flag() {
    let c = Cli::parse(&args(&[
        "dirwatch", "-watch", "src", "-serve", "public", "-run", "make", "-port", "3000",
    ]));
    assert_eq!(c.dir_watch, "src");
    assert_eq!(c.dir_serve, "public");
    assert_eq!(c.cmd, "make");
    assert_eq!(c.port, "3000");
}

#[test]
fn trailing_flag_without_value_falls_back_to_default() {
    let c = Cli::parse(&args(&["dirwatch", "-port"]));
    assert_eq!(c.port, "8080");
}

#[test]
fn first_occurrence_of_a_flag_wins() {
    let c = Cli::parse(&args(&["dirwatch", "-watch", "a", "-watch", "b"]));
    assert_eq!(c.dir_watch, "a");
}

#[test]
fn find_flag_matches_whole_arguments() {
    let a = args(&["dirwatch", "-h", "-watch", "src"]);
    assert!(find_flag(&a, "-h"));
    assert!(find_flag(&a, "-watch"));
    assert!(!find_flag(&a, "-serve"));
    assert!(!find_flag(&a, "-w"));
}
