use ravel::file_discovery::is_r_file;

#[test]
fn recognises_r_extensions_in_either_case() {
    assert!(is_r_file("a/b/script.R"));
    assert!(is_r_file("script.r"));
    assert!(is_r_file("dir.d/x.R/"));
    assert!(!is_r_file("notes.txt"));
    assert!(!is_r_file("Rfile"));
    assert!(!is_r_file(".R"));
    assert!(!is_r_file("a/.."));
    assert!(!is_r_file("x.Rmd"));
    assert!(!is_r_file("x.R.bak"));
}
