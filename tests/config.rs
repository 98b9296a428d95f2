use morph_test2::config::{
    determine_hfst_lookup_tool, is_test_file_extension, lookup_tool_for_extensions, resolve_backend,
    resolve_path_relative_to_yaml, transducer_file_names, BackendChoice, ConfigError, FomaCfg,
    HfstCfg, RawConfig,
};
use morph_test2::i18n::{init, t, t_with_args};
use morph_test2::locale::parse_locale;
use morph_test2::report::mode_label;
use morph_test2::types::Direction;

#[test]
fn lookup_tool_from_extensions() {
    assert_eq!(determine_hfst_lookup_tool("gen.hfst", None), "hfst-lookup");
    assert_eq!(determine_hfst_lookup_tool("gen.hfstol", None), "hfst-optimised-lookup");
    assert_eq!(determine_hfst_lookup_tool("gen.att", Some("ana.hfst")), "hfst-lookup");
    assert_eq!(determine_hfst_lookup_tool("gen", Some("ana")), "hfst-optimised-lookup");
    assert_eq!(determine_hfst_lookup_tool("dir.hfst/gen", None), "hfst-optimised-lookup");
}

#[test]
fn lookup_tool_from_given_extensions() {
    assert_eq!(
        lookup_tool_for_extensions(&Some("hfstol".into()), &Some("hfst".into())),
        "hfst-optimised-lookup"
    );
    assert_eq!(lookup_tool_for_extensions(&None, &Some("hfst".into())), "hfst-lookup");
    assert_eq!(lookup_tool_for_extensions(&Some("HFST".into()), &None), "hfst-optimised-lookup");
}

#[test]
fn paths_resolve_against_the_test_file() {
    assert_eq!(resolve_path_relative_to_yaml("/abs/g.hfst", "/t/suite.yaml"), "/abs/g.hfst");
    assert_eq!(resolve_path_relative_to_yaml("g.hfst", "/t/suite.yaml"), "/t/g.hfst");
    assert_eq!(resolve_path_relative_to_yaml("g.hfst", "suite.yaml"), "g.hfst");
}

fn hfst(gen: Option<&str>, morph: Option<&str>) -> Option<HfstCfg> {
    Some(HfstCfg { gen: gen.map(|s| s.into()), morph: morph.map(|s| s.into()) })
}

#[test]
fn backend_resolution() {
    assert_eq!(
        resolve_backend(&None, BackendChoice::Auto, "/t/s.yaml").unwrap_err(),
        ConfigError::MissingConfig
    );
    let empty = Some(RawConfig { hfst: None, foma: None });
    assert_eq!(
        resolve_backend(&empty, BackendChoice::Auto, "/t/s.yaml").unwrap_err(),
        ConfigError::MissingGenerator
    );
    assert_eq!(
        resolve_backend(&empty, BackendChoice::Hfst, "/t/s.yaml").unwrap_err(),
        ConfigError::MissingHfst
    );
    assert_eq!(
        resolve_backend(&empty, BackendChoice::Foma, "/t/s.yaml").unwrap_err(),
        ConfigError::MissingFoma
    );
    let no_gen = Some(RawConfig { hfst: hfst(None, Some("a.hfst")), foma: None });
    assert_eq!(
        resolve_backend(&no_gen, BackendChoice::Hfst, "/t/s.yaml").unwrap_err(),
        ConfigError::MissingHfstGenerator
    );
    let cfg = Some(RawConfig { hfst: hfst(Some(" g.hfstol "), Some("a.hfst")), foma: None });
    let (kind, cmd, gen, morph) = resolve_backend(&cfg, BackendChoice::Auto, "/t/s.yaml").unwrap();
    assert_eq!(kind, BackendChoice::Hfst);
    assert_eq!(cmd, "hfst-optimised-lookup");
    assert_eq!(gen, "/t/g.hfstol");
    assert_eq!(morph.as_deref(), Some("/t/a.hfst"));
}

#[test]
fn foma_defaults_to_flookup() {
    let cfg = Some(RawConfig {
        hfst: None,
        foma: Some(FomaCfg { gen: Some("g.foma".into()), morph: None, app: None }),
    });
    let (kind, cmd, gen, morph) = resolve_backend(&cfg, BackendChoice::Auto, "/t/s.yaml").unwrap();
    assert_eq!(kind, BackendChoice::Foma);
    assert_eq!(cmd, "flookup");
    assert_eq!(gen, "/t/g.foma");
    assert!(morph.is_none());
    let custom = Some(RawConfig {
        hfst: None,
        foma: Some(FomaCfg { gen: Some("g".into()), morph: None, app: Some(" lookup ".into()) }),
    });
    assert_eq!(resolve_backend(&custom, BackendChoice::Foma, "s.yaml").unwrap().1, "lookup");
    assert_eq!(BackendChoice::default(), BackendChoice::Auto);
}

#[test]
fn catalog_lookup_and_arguments() {
    let en = parse_locale("en").unwrap();
    let catalog = init(en.clone(), "# comment\n greeting = Hello {$name}, {$name}! \nsum = a = b\nbad line\ngreeting = Hi {$name}\n");
    assert_eq!(t(&catalog, "sum"), "a = b");
    assert_eq!(t(&catalog, "greeting"), "Hi {$name}");
    assert_eq!(t(&catalog, "absent"), "MISSING: absent");
    let args = vec![("name".to_string(), "Ann".to_string())];
    assert_eq!(t_with_args(&catalog, "greeting", &args), "Hi Ann");
    assert_eq!(catalog.current_locale(), &en);
    let first = init(en, "greeting = Hello {$name}, {$name}!");
    assert_eq!(t_with_args(&first, "greeting", &args), "Hello Ann, Ann!");
    assert_eq!(t_with_args(&first, "greeting", &[]), "Hello {$name}, {$name}!");
}

#[test]
fn transducer_files_and_test_extensions() {
    let (analyzers, generators) = transducer_file_names("gt-norm");
    assert_eq!(
        analyzers,
        vec![
            "analyser-gt-norm.hfstol",
            "analyser-gt-norm.hfst",
            "analyzer-gt-norm.hfstol",
            "analyzer-gt-norm.hfst",
        ]
    );
    assert_eq!(generators, vec!["generator-gt-norm.hfstol", "generator-gt-norm.hfst"]);
    assert!(is_test_file_extension("yaml"));
    assert!(is_test_file_extension("yml"));
    assert!(is_test_file_extension("lexc"));
    assert!(!is_test_file_extension("YAML"));
    assert!(!is_test_file_extension("txt"));
}

#[test]
fn direction_labels_come_from_the_messages() {
    let en = parse_locale("en").unwrap();
    let localizer = init(en, "direction-generate = Lexical/Generation\ndirection-analyze = Surface/Analysis\n");
    assert_eq!(mode_label(&localizer, Direction::Generate), "Lexical/Generation");
    assert_eq!(mode_label(&localizer, Direction::Analyze), "Surface/Analysis");
}
