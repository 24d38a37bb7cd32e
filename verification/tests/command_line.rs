//! Command-line tokenization tests.

use lazymc::command::split_args;

fn split(s: &str) -> Vec<Vec<u8>> {
    split_args(s.as_bytes())
}

fn args(items: &[&str]) -> Vec<Vec<u8>> {
    items.iter().map(|s| s.as_bytes().to_vec()).collect()
}

#[test]
fn split_args_typical_command() {
    assert_eq!(
        split("java -Xmx2G -jar server.jar nogui"),
        args(&["java", "-Xmx2G", "-jar", "server.jar", "nogui"])
    );
}

#[test]
fn split_args_edge_cases() {
    assert_eq!(split(""), args(&[]));
    assert_eq!(split("java"), args(&["java"]));
    assert_eq!(split("java "), args(&["java"]));
    assert_eq!(split("a  b"), args(&["a", "", "b"]));
    assert_eq!(split(" a"), args(&["", "a"]));
    assert_eq!(split(" "), args(&[""]));
}
