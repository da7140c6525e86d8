use demo_ls::args::{Args, DEFAULT_THREADS_LIMIT};

#[test]
fn budget_of_zero_threads_is_refused() {
    assert!(Args::new("Scarb.toml".to_string(), 0).is_none());
}

#[test]
fn positive_budget_is_kept() {
    let args = Args::new("project/Scarb.toml".to_string(), 7).unwrap();
    assert_eq!(args.manifest_path, "project/Scarb.toml");
    assert_eq!(args.threads_limit, 7);
    assert_eq!(Args::new(String::new(), usize::MAX).unwrap().threads_limit, usize::MAX);
    assert_eq!(Args::new(String::new(), 1).unwrap().threads_limit, 1);
}

#[test]
fn default_budget_is_four_threads() {
    assert_eq!(DEFAULT_THREADS_LIMIT, 4);
    let args = Args::with_default_limit("Scarb.toml".to_string());
    assert_eq!(args.threads_limit, 4);
    assert_eq!(args.manifest_path, "Scarb.toml");
}
