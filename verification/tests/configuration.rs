use parse_table::Config;

fn args(list: &[&str]) -> Vec<String> {
    list.iter().map(|a| a.to_string()).collect()
}

#[test]
fn input_path_required() {
    match Config::new(&args(&["prog"])) {
        Err(m) => assert_eq!(m, "Input file path is required"),
        Ok(_) => panic!("expected a missing-input error"),
    }
}

#[test]
fn default_output_paths_from_input_stem() {
    let config = Config::new(&args(&["prog", "dir/bod.html"])).unwrap();
    assert_eq!(config.input_file, "dir/bod.html");
    assert_eq!(config.output_csv, "bod.csv");
    assert_eq!(config.output_md, "bod.md");
}

#[test]
fn explicit_output_paths_kept() {
    let config = Config::new(&args(&["prog", "in.html", "out/a.csv", "out/b.md"])).unwrap();
    assert_eq!(config.output_csv, "out/a.csv");
    assert_eq!(config.output_md, "out/b.md");
}

#[test]
fn default_output_name_cases() {
    assert_eq!(Config::default_output_name("bod.html", "csv"), "bod.csv");
    assert_eq!(Config::default_output_name("a/b/c.htm", "md"), "c.md");
    assert_eq!(Config::default_output_name("noext", "csv"), "noext.csv");
    assert_eq!(Config::default_output_name("dir/", "csv"), "dir.csv");
    assert_eq!(Config::default_output_name("", "csv"), "output.csv");
    assert_eq!(Config::default_output_name("..", "md"), "output.md");
    assert_eq!(Config::default_output_name(".", "md"), "output.md");
    assert_eq!(Config::default_output_name(".bar", "csv"), ".bar.csv");
    assert_eq!(Config::default_output_name("x.y.html", "csv"), "x.csv");
}
