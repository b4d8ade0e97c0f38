use std::path::Path;

use t2rebar::path::{file_name, parent, with_extension};

#[test]
fn paths_are_taken_apart_as_std_takes_them_apart() {
    let mut paths: Vec<String> = vec![String::new()];
    let pieces = ["/", "a", ".", "..", "b.txt", ".h", "x.", "//", "/./"];
    for round in 0..4 {
        let longer: Vec<String> = paths
            .iter()
            .filter(|p| round == 0 || !p.is_empty())
            .flat_map(|p| pieces.iter().map(move |s| format!("{}{}", p, s)))
            .collect();
        paths.extend(longer);
    }
    for s in &paths {
        let p = Path::new(s);
        assert_eq!(file_name(s).as_deref(), p.file_name().map(|n| n.to_str().unwrap()), "{}", s);
        assert_eq!(parent(s).as_deref(), p.parent().map(|d| d.to_str().unwrap()), "{}", s);
        let mut other = p.to_path_buf();
        other.set_extension("tmp");
        assert_eq!(with_extension(s, "tmp"), other.to_str().unwrap(), "{}", s);
    }
}

#[test]
fn extensions_are_replaced() {
    assert_eq!(with_extension("/var/lib/t2rebar/state.txt", "tmp"), "/var/lib/t2rebar/state.tmp");
    assert_eq!(with_extension("state", "tmp"), "state.tmp");
    assert_eq!(with_extension(".hidden", "tmp"), ".hidden.tmp");
    assert_eq!(with_extension("a.b.c/", "tmp"), "a.b.tmp");
    assert_eq!(with_extension("..", "tmp"), "..");
}
