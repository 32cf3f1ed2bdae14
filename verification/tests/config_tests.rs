use minigrep::config::Config;

#[test]
fn three_arguments_build_a_config() {
    let args = vec![
        String::from("minigrep"),
        String::from("needle"),
        String::from("haystack.txt"),
    ];
    let config = Config::new(&args).unwrap();
    assert_eq!(config.query, "needle");
    assert_eq!(config.filename, "haystack.txt");
}

#[test]
fn extra_arguments_are_ignored() {
    let args = vec![
        String::from("minigrep"),
        String::from("a"),
        String::from("b"),
        String::from("c"),
    ];
    let config = Config::new(&args).unwrap();
    assert_eq!(config.query, "a");
    assert_eq!(config.filename, "b");
}

#[test]
fn too_few_arguments_are_rejected() {
    let args = vec![String::from("minigrep"), String::from("needle")];
    let err = Config::new(&args).unwrap_err();
    assert_eq!(err, "not enough arguments");
}

#[test]
fn no_arguments_are_rejected() {
    let args: Vec<String> = Vec::new();
    assert!(Config::new(&args).is_err());
}
