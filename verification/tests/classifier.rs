use disk_cleanup_tool::utils::is_temp_directory;

#[test]
fn test_is_temp_directory() {
    // Test Node.js / JavaScript temp directories
    assert!(is_temp_directory("node_modules"));
    assert!(is_temp_directory(".npm"));
    assert!(is_temp_directory(".yarn"));
    assert!(is_temp_directory(".next"));
    assert!(is_temp_directory(".nuxt"));
    assert!(is_temp_directory(".turbo"));
    assert!(is_temp_directory(".vite"));

    // Test Python temp directories
    assert!(is_temp_directory(".venv"));
    assert!(is_temp_directory("venv"));
    assert!(is_temp_directory("__pycache__"));
    assert!(is_temp_directory(".pytest_cache"));
    assert!(is_temp_directory(".mypy_cache"));

    // Test Rust temp directories
    assert!(is_temp_directory("target"));
    assert!(is_temp_directory(".fingerprint"));
    assert!(is_temp_directory(".cargo"));

    // Test build outputs
    assert!(is_temp_directory("dist"));
    assert!(is_temp_directory("build"));
    assert!(is_temp_directory("out"));

    // Test caches
    assert!(is_temp_directory(".cache"));
    assert!(is_temp_directory("cache"));
    assert!(is_temp_directory("tmp"));

    // Test version managers
    assert!(is_temp_directory(".nvm"));
    assert!(is_temp_directory(".rvm"));
    assert!(is_temp_directory(".pyenv"));

    // Test IDEs
    assert!(is_temp_directory(".idea"));
    assert!(is_temp_directory(".vscode"));

    // Test coverage
    assert!(is_temp_directory("coverage"));
    assert!(is_temp_directory(".nyc_output"));

    // Test normal directories
    assert!(!is_temp_directory("src"));
    assert!(!is_temp_directory("lib"));
    assert!(!is_temp_directory("tests"));
    assert!(!is_temp_directory("my_project"));
    assert!(!is_temp_directory("public"));
    assert!(!is_temp_directory("assets"));
}

#[test]
fn affixed_names_are_not_temporary() {
    for name in ["node_modules", "target", "dist", ".next", ".idea"] {
        assert!(is_temp_directory(name));
        assert!(!is_temp_directory(&format!("my_{}", name)));
        assert!(!is_temp_directory(&format!("{}X", name)));
    }
    assert!(!is_temp_directory("Node_Modules"));
    assert!(!is_temp_directory(""));
}

#[test]
fn every_catalog_name_is_temporary() {
    let names = [
        "node_modules", ".npm", ".yarn", ".pnpm-store", ".turbo", ".parcel-cache", ".webpack",
        ".rollup.cache", ".vite", ".next", ".nuxt", ".output", ".vercel", ".netlify",
        "bower_components", ".venv", "venv", "env", ".env", "__pycache__", ".pytest_cache",
        ".mypy_cache", ".tox", ".eggs", "*.egg-info", ".ipynb_checkpoints", "target",
        ".fingerprint", ".cargo", "dist", "build", "out", ".build", "_build", ".gradle", ".mvn",
        ".cache", "cache", ".tmp", "tmp", "temp", ".temp", ".nvm", ".rvm", ".rbenv", ".pyenv",
        ".idea", ".vscode", ".vs", ".eclipse", ".settings", ".DS_Store", "Thumbs.db", ".Trash",
        "coverage", ".coverage", ".nyc_output", "htmlcov", ".sass-cache", ".docusaurus",
    ];
    assert_eq!(names.len(), 60);
    for name in names {
        assert!(is_temp_directory(name), "{}", name);
        // an affix breaks the match unless the whole is a catalog name again
        for affix in ["x", "_", "my-", "."] {
            let before = format!("{}{}", affix, name);
            let after = format!("{}{}", name, affix);
            assert_eq!(is_temp_directory(&before), names.contains(&before.as_str()), "{}", before);
            assert_eq!(is_temp_directory(&after), names.contains(&after.as_str()), "{}", after);
        }
    }
}

#[test]
fn names_that_extend_a_shorter_name() {
    // temporary names of their own, though they end in or begin with another
    assert!(is_temp_directory(".cache"));
    assert!(is_temp_directory(".rollup.cache"));
    assert!(is_temp_directory(".venv"));
    assert!(is_temp_directory(".vscode"));
    // not temporary, though they hold one
    assert!(!is_temp_directory("mycache"));
    assert!(!is_temp_directory(".vscodium"));
    assert!(!is_temp_directory("egg-info"));
    assert!(!is_temp_directory("foo.egg-info"));
    assert!(!is_temp_directory("target/"));
    assert!(!is_temp_directory(" target"));
    assert!(!is_temp_directory("TARGET"));
}
