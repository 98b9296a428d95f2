//! Test-file configuration: which lookup tool and transducers a suite uses.
use crate::text::{chars_of, same_chars, trim, trimmed};
use crate::types::TestSuite;
use vstd::prelude::*;

verus! {

/// Which kind of lookup tool to use.
#[derive(Debug, Clone, Copy, PartialEq, Eq, Structural)]
pub enum BackendChoice {
    /// HFST when the file configures an HFST generator, else Foma.
    Auto,
    Hfst,
    Foma,
}

impl Default for BackendChoice {
    fn default() -> (r: BackendChoice)
        ensures
            r == BackendChoice::Auto,
    {
        BackendChoice::Auto
    }
}

/// The HFST section of a test file.
#[derive(Debug, Clone)]
pub struct HfstCfg {
    pub gen: Option<String>,
    pub morph: Option<String>,
}

/// The Foma section of a test file; `app` defaults to `flookup`.
#[derive(Debug, Clone)]
pub struct FomaCfg {
    pub gen: Option<String>,
    pub morph: Option<String>,
    pub app: Option<String>,
}

/// The configuration section of a test file.
#[derive(Debug, Clone)]
pub struct RawConfig {
    pub hfst: Option<HfstCfg>,
    pub foma: Option<FomaCfg>,
}

/// One expected string, or several.
#[derive(Debug, Clone)]
pub enum OneOrMany {
    One(String),
    Many(Vec<String>),
}

/// A suite with the tool and transducers that run it.
#[derive(Debug, Clone)]
pub struct SuiteWithConfig {
    pub suite: TestSuite,
    pub backend: BackendChoice,
    pub lookup_cmd: String,
    pub gen_fst: String,
    pub morph_fst: Option<String>,
}

/// What is missing from a configuration.
#[derive(Debug, Clone, Copy, PartialEq, Eq, Structural)]
pub enum ConfigError {
    /// The file has no configuration section.
    MissingConfig,
    /// Neither an HFST nor a Foma generator is configured.
    MissingGenerator,
    /// HFST was chosen and there is no HFST section.
    MissingHfst,
    /// HFST was chosen and its section names no generator.
    MissingHfstGenerator,
    /// Foma was chosen and there is no Foma section.
    MissingFoma,
    /// Foma was chosen and its section names no generator.
    MissingFomaGenerator,
}

/// The extension of a file path, as `Path::extension` gives it.
pub uninterp spec fn extension_of(p: Seq<char>) -> Option<Seq<char>>;

/// Whether a path is absolute, as `Path::is_absolute` says.
pub uninterp spec fn is_absolute_path(p: Seq<char>) -> bool;

/// The directory part of a path, as `Path::parent` gives it.
pub uninterp spec fn parent_of(p: Seq<char>) -> Option<Seq<char>>;

/// A path joined onto a directory, as `Path::join` gives it.
pub uninterp spec fn joined_path(dir: Seq<char>, p: Seq<char>) -> Seq<char>;

/// Relies on `Path::extension`: the extension of `p`, if it has one.
#[verifier::external_body]
fn path_extension(p: &str) -> (r: Option<String>)
    ensures
        (match r {
            Some(e) => extension_of(p@) == Some(e@),
            None => extension_of(p@) is None,
        }),
{
    std::path::Path::new(p).extension().map(|e| e.to_string_lossy().into_owned())
}

/// Relies on `Path::is_absolute`.
#[verifier::external_body]
fn path_is_absolute(p: &str) -> (r: bool)
    ensures
        r == is_absolute_path(p@),
{
    std::path::Path::new(p).is_absolute()
}

/// Relies on `Path::parent`: the directory part of `p`, if any.
#[verifier::external_body]
fn path_parent(p: &str) -> (r: Option<String>)
    ensures
        (match r {
            Some(d) => parent_of(p@) == Some(d@),
            None => parent_of(p@) is None,
        }),
{
    std::path::Path::new(p).parent().map(|d| d.to_string_lossy().into_owned())
}

/// Relies on `Path::join`: `p` taken relative to `dir`.
#[verifier::external_body]
fn path_join(dir: &str, p: &str) -> (r: String)
    ensures
        r@ == joined_path(dir@, p@),
{
    std::path::Path::new(dir).join(p).to_string_lossy().into_owned()
}

pub open spec fn hfst_lookup() -> Seq<char> {
    seq!['h', 'f', 's', 't', '-', 'l', 'o', 'o', 'k', 'u', 'p']
}

pub open spec fn hfst_optimised_lookup() -> Seq<char> {
    seq![
        'h',
        'f',
        's',
        't',
        '-',
        'o',
        'p',
        't',
        'i',
        'm',
        'i',
        's',
        'e',
        'd',
        '-',
        'l',
        'o',
        'o',
        'k',
        'u',
        'p',
    ]
}

pub open spec fn flookup() -> Seq<char> {
    seq!['f', 'l', 'o', 'o', 'k', 'u', 'p']
}

/// The HFST tool that reads transducers with extension `ext`, if it is known.
pub open spec fn tool_for_extension(ext: Option<Seq<char>>) -> Option<Seq<char>> {
    if ext == Some(seq!['h', 'f', 's', 't']) {
        Some(hfst_lookup())
    } else if ext == Some(seq!['h', 'f', 's', 't', 'o', 'l']) {
        Some(hfst_optimised_lookup())
    } else {
        None
    }
}

/// The HFST tool for a generator and an analyzer with these extensions: the
/// generator decides when its extension is known, then the analyzer, and
/// the optimised lookup is the default.
pub open spec fn hfst_tool(gen_ext: Option<Seq<char>>, morph_ext: Option<Seq<char>>) -> Seq<char> {
    match tool_for_extension(gen_ext) {
        Some(t) => t,
        None => match tool_for_extension(morph_ext) {
            Some(t) => t,
            None => hfst_optimised_lookup(),
        },
    }
}

/// The view of an optional string.
pub open spec fn opt_view(s: Option<String>) -> Option<Seq<char>> {
    match s {
        Some(x) => Some(x@),
        None => None,
    }
}

/// The HFST tool for a transducer with extension `ext`, if it is known.
fn tool_for_ext(ext: &Option<String>) -> (r: Option<String>)
    ensures
        opt_view(r) == tool_for_extension(opt_view(*ext)),
{
    match ext {
        Some(e) => {
            let v = chars_of(e.as_str());
            proof {
                reveal_strlit("hfst");
                reveal_strlit("hfstol");
                reveal_strlit("hfst-lookup");
                reveal_strlit("hfst-optimised-lookup");
            }
            let hfst = chars_of("hfst");
            let hfstol = chars_of("hfstol");
            if same_chars(&v, &hfst) {
                assert(v@ =~= seq!['h', 'f', 's', 't']);
                let t = String::from_str("hfst-lookup");
                assert(t@ =~= hfst_lookup());
                Some(t)
            } else if same_chars(&v, &hfstol) {
                assert(v@ =~= seq!['h', 'f', 's', 't', 'o', 'l']);
                assert(v@.len() != 4);
                let t = String::from_str("hfst-optimised-lookup");
                assert(t@ =~= hfst_optimised_lookup());
                Some(t)
            } else {
                assert(v@ != seq!['h', 'f', 's', 't']) by {
                    assert(hfst@ =~= seq!['h', 'f', 's', 't']);
                }
                assert(v@ != seq!['h', 'f', 's', 't', 'o', 'l']) by {
                    assert(hfstol@ =~= seq!['h', 'f', 's', 't', 'o', 'l']);
                }
                None
            }
        },
        None => None,
    }
}

/// The HFST tool for a generator and an analyzer whose file extensions are
/// `gen_ext` and `morph_ext`.
pub fn lookup_tool_for_extensions(gen_ext: &Option<String>, morph_ext: &Option<String>) -> (r:
    String)
    ensures
        r@ == hfst_tool(opt_view(*gen_ext), opt_view(*morph_ext)),
{
    match tool_for_ext(gen_ext) {
        Some(t) => t,
        None => match tool_for_ext(morph_ext) {
            Some(t) => t,
            None => {
                proof {
                    reveal_strlit("hfst-optimised-lookup");
                }
                let t = String::from_str("hfst-optimised-lookup");
                assert(t@ =~= hfst_optimised_lookup());
                t
            },
        },
    }
}

/// The extension of an optional path.
pub open spec fn extension_of_opt(p: Option<Seq<char>>) -> Option<Seq<char>> {
    match p {
        Some(x) => extension_of(x),
        None => None,
    }
}

/// The HFST lookup tool for a generator at `gen_path` and an optional
/// analyzer at `morph_path`, chosen by their file extensions.
pub fn determine_hfst_lookup_tool(gen_path: &str, morph_path: Option<&str>) -> (r: String)
    ensures
        r@ == hfst_tool(
            extension_of(gen_path@),
            extension_of_opt(
                match morph_path {
                    Some(m) => Some(m@),
                    None => None,
                },
            ),
        ),
{
    let gen_ext = path_extension(gen_path);
    let morph_ext = match morph_path {
        Some(m) => path_extension(m),
        None => None,
    };
    lookup_tool_for_extensions(&gen_ext, &morph_ext)
}

/// `path` taken relative to the directory of the test file at `yaml_file_path`,
/// unless it is absolute.
pub open spec fn resolved_path(path: Seq<char>, yaml_file_path: Seq<char>) -> Seq<char> {
    if is_absolute_path(path) {
        path
    } else {
        match parent_of(yaml_file_path) {
            Some(dir) => joined_path(dir, path),
            None => path,
        }
    }
}

/// `path` taken relative to the directory of the test file at `yaml_file_path`.
pub fn resolve_path_relative_to_yaml(path: &str, yaml_file_path: &str) -> (r: String)
    ensures
        r@ == resolved_path(path@, yaml_file_path@),
{
    if path_is_absolute(path) {
        String::from_str(path)
    } else {
        match path_parent(yaml_file_path) {
            Some(dir) => path_join(dir.as_str(), path),
            None => String::from_str(path),
        }
    }
}

/// A configured path, trimmed and resolved against the test file.
pub open spec fn config_path(p: String, yaml_file_path: Seq<char>) -> Seq<char> {
    resolved_path(trim(p@), yaml_file_path)
}

/// The kind of backend that `prefer` picks under `cfg`.
pub open spec fn chosen_backend(cfg: RawConfig, prefer: BackendChoice) -> Result<
    BackendChoice,
    ConfigError,
> {
    match prefer {
        BackendChoice::Hfst => Ok(BackendChoice::Hfst),
        BackendChoice::Foma => Ok(BackendChoice::Foma),
        BackendChoice::Auto => if cfg.hfst matches Some(h) && h.gen is Some {
            Ok(BackendChoice::Hfst)
        } else if cfg.foma matches Some(f) && f.gen is Some {
            Ok(BackendChoice::Foma)
        } else {
            Err(ConfigError::MissingGenerator)
        },
    }
}

/// `r` is the resolution of a configuration section `config` under `prefer`,
/// for the test file at `yaml_file_path`.
pub open spec fn resolves(
    r: Result<(BackendChoice, String, String, Option<String>), ConfigError>,
    config: Option<RawConfig>,
    prefer: BackendChoice,
    yaml_file_path: Seq<char>,
) -> bool {
    match config {
        None => r == Err::<(BackendChoice, String, String, Option<String>), ConfigError>(
            ConfigError::MissingConfig,
        ),
        Some(cfg) => match chosen_backend(cfg, prefer) {
            Err(e) => r == Err::<(BackendChoice, String, String, Option<String>), ConfigError>(e),
            Ok(BackendChoice::Foma) => match cfg.foma {
                None => r == Err::<(BackendChoice, String, String, Option<String>), ConfigError>(
                    ConfigError::MissingFoma,
                ),
                Some(f) => match f.gen {
                    None => r == Err::<(BackendChoice, String, String, Option<String>), ConfigError>(
                        ConfigError::MissingFomaGenerator,
                    ),
                    Some(g) => r matches Ok(t) && t.0 == BackendChoice::Foma && t.1@ == trim(
                        match f.app {
                            Some(a) => a@,
                            None => flookup(),
                        },
                    ) && t.2@ == config_path(g, yaml_file_path) && opt_view(t.3) == match f.morph {
                        Some(m) => Some(config_path(m, yaml_file_path)),
                        None => None,
                    },
                },
            },
            Ok(_) => match cfg.hfst {
                None => r == Err::<(BackendChoice, String, String, Option<String>), ConfigError>(
                    ConfigError::MissingHfst,
                ),
                Some(h) => match h.gen {
                    None => r == Err::<(BackendChoice, String, String, Option<String>), ConfigError>(
                        ConfigError::MissingHfstGenerator,
                    ),
                    Some(g) => r matches Ok(t) && t.0 == BackendChoice::Hfst && t.1@ == hfst_tool(
                        extension_of(config_path(g, yaml_file_path)),
                        extension_of_opt(
                            match h.morph {
                                Some(m) => Some(config_path(m, yaml_file_path)),
                                None => None,
                            },
                        ),
                    ) && t.2@ == config_path(g, yaml_file_path) && opt_view(t.3) == match h.morph {
                        Some(m) => Some(config_path(m, yaml_file_path)),
                        None => None,
                    },
                },
            },
        },
    }
}

/// A configured path, trimmed and resolved against the test file.
fn resolve_config_path(p: &String, yaml_file_path: &str) -> (r: String)
    ensures
        r@ == config_path(*p, yaml_file_path@),
{
    let t = trimmed(p.as_str());
    resolve_path_relative_to_yaml(t.as_str(), yaml_file_path)
}

/// An optional configured path, trimmed and resolved against the test file.
fn resolve_config_path_opt(p: &Option<String>, yaml_file_path: &str) -> (r: Option<String>)
    ensures
        opt_view(r) == match *p {
            Some(m) => Some(config_path(m, yaml_file_path@)),
            None => None,
        },
{
    match p {
        Some(m) => Some(resolve_config_path(m, yaml_file_path)),
        None => None,
    }
}

/// The backend kind, lookup command, generator and optional analyzer of a
/// test file, from its configuration section and the preferred backend.
pub fn resolve_backend(config: &Option<RawConfig>, prefer: BackendChoice, yaml_file_path: &str) -> (r:
    Result<(BackendChoice, String, String, Option<String>), ConfigError>)
    ensures
        resolves(r, *config, prefer, yaml_file_path@),
{
    let cfg = match config {
        Some(c) => c,
        None => {
            return Err(ConfigError::MissingConfig);
        },
    };
    let chosen = match prefer {
        BackendChoice::Hfst => BackendChoice::Hfst,
        BackendChoice::Foma => BackendChoice::Foma,
        BackendChoice::Auto => {
            let hfst_gen = match &cfg.hfst {
                Some(h) => h.gen.is_some(),
                None => false,
            };
            let foma_gen = match &cfg.foma {
                Some(f) => f.gen.is_some(),
                None => false,
            };
            if hfst_gen {
                BackendChoice::Hfst
            } else if foma_gen {
                BackendChoice::Foma
            } else {
                return Err(ConfigError::MissingGenerator);
            }
        },
    };
    if chosen == BackendChoice::Foma {
        let f = match &cfg.foma {
            Some(f) => f,
            None => {
                return Err(ConfigError::MissingFoma);
            },
        };
        let g = match &f.gen {
            Some(g) => g,
            None => {
                return Err(ConfigError::MissingFomaGenerator);
            },
        };
        let gen_fst = resolve_config_path(g, yaml_file_path);
        let morph = resolve_config_path_opt(&f.morph, yaml_file_path);
        let cmd = match &f.app {
            Some(a) => trimmed(a.as_str()),
            None => {
                proof {
                    reveal_strlit("flookup");
                }
                let dflt = String::from_str("flookup");
                assert(dflt@ =~= flookup());
                trimmed(dflt.as_str())
            },
        };
        Ok((BackendChoice::Foma, cmd, gen_fst, morph))
    } else {
        let h = match &cfg.hfst {
            Some(h) => h,
            None => {
                return Err(ConfigError::MissingHfst);
            },
        };
        let g = match &h.gen {
            Some(g) => g,
            None => {
                return Err(ConfigError::MissingHfstGenerator);
            },
        };
        let gen_fst = resolve_config_path(g, yaml_file_path);
        let morph = resolve_config_path_opt(&h.morph, yaml_file_path);
        let cmd = match &morph {
            Some(m) => determine_hfst_lookup_tool(gen_fst.as_str(), Some(m.as_str())),
            None => determine_hfst_lookup_tool(gen_fst.as_str(), None),
        };
        Ok((BackendChoice::Hfst, cmd, gen_fst, morph))
    }
}

/// `prefix` + `fst_type` + `suffix`.
fn affixed(prefix: &str, fst_type: &str, suffix: &str) -> (r: String)
    ensures
        r@ == prefix@ + fst_type@ + suffix@,
{
    let mut s = String::from_str(prefix);
    s.append(fst_type);
    s.append(suffix);
    s
}

/// The file names under which the analyzers and the generators of
/// transducer type `t` are looked for, in order of preference.
pub open spec fn transducer_names(t: Seq<char>) -> (Seq<Seq<char>>, Seq<Seq<char>>) {
    let hfstol = seq!['.', 'h', 'f', 's', 't', 'o', 'l'];
    let hfst = seq!['.', 'h', 'f', 's', 't'];
    let analyser = seq!['a', 'n', 'a', 'l', 'y', 's', 'e', 'r', '-'];
    let analyzer = seq!['a', 'n', 'a', 'l', 'y', 'z', 'e', 'r', '-'];
    let generator = seq!['g', 'e', 'n', 'e', 'r', 'a', 't', 'o', 'r', '-'];
    (
        seq![analyser + t + hfstol, analyser + t + hfst, analyzer + t + hfstol, analyzer + t + hfst],
        seq![generator + t + hfstol, generator + t + hfst],
    )
}

/// The file names of the analyzers and of the generators of transducer
/// type `fst_type`, in order of preference.
pub fn transducer_file_names(fst_type: &str) -> (r: (Vec<String>, Vec<String>))
    ensures
        crate::text::views(r.0@) == transducer_names(fst_type@).0,
        crate::text::views(r.1@) == transducer_names(fst_type@).1,
{
    proof {
        reveal_strlit("analyser-");
        reveal_strlit("analyzer-");
        reveal_strlit("generator-");
        reveal_strlit(".hfstol");
        reveal_strlit(".hfst");
    }
    assert("analyser-"@ =~= seq!['a', 'n', 'a', 'l', 'y', 's', 'e', 'r', '-']);
    assert("analyzer-"@ =~= seq!['a', 'n', 'a', 'l', 'y', 'z', 'e', 'r', '-']);
    assert("generator-"@ =~= seq!['g', 'e', 'n', 'e', 'r', 'a', 't', 'o', 'r', '-']);
    assert(".hfstol"@ =~= seq!['.', 'h', 'f', 's', 't', 'o', 'l']);
    assert(".hfst"@ =~= seq!['.', 'h', 'f', 's', 't']);
    let mut analyzers: Vec<String> = Vec::new();
    analyzers.push(affixed("analyser-", fst_type, ".hfstol"));
    analyzers.push(affixed("analyser-", fst_type, ".hfst"));
    analyzers.push(affixed("analyzer-", fst_type, ".hfstol"));
    analyzers.push(affixed("analyzer-", fst_type, ".hfst"));
    let mut generators: Vec<String> = Vec::new();
    generators.push(affixed("generator-", fst_type, ".hfstol"));
    generators.push(affixed("generator-", fst_type, ".hfst"));
    assert(crate::text::views(analyzers@) =~= transducer_names(fst_type@).0);
    assert(crate::text::views(generators@) =~= transducer_names(fst_type@).1);
    (analyzers, generators)
}

/// Whether a file with extension `ext` holds tests: `yaml`, `yml` or `lexc`.
pub open spec fn is_test_extension(ext: Seq<char>) -> bool {
    ext == seq!['y', 'a', 'm', 'l'] || ext == seq!['y', 'm', 'l'] || ext == seq!['l', 'e', 'x', 'c']
}

/// Whether a file with extension `ext` holds tests.
pub fn is_test_file_extension(ext: &str) -> (r: bool)
    ensures
        r == is_test_extension(ext@),
{
    proof {
        reveal_strlit("yaml");
        reveal_strlit("yml");
        reveal_strlit("lexc");
    }
    let v = chars_of(ext);
    let yaml = chars_of("yaml");
    let yml = chars_of("yml");
    let lexc = chars_of("lexc");
    assert(yaml@ =~= seq!['y', 'a', 'm', 'l']);
    assert(yml@ =~= seq!['y', 'm', 'l']);
    assert(lexc@ =~= seq!['l', 'e', 'x', 'c']);
    same_chars(&v, &yaml) || same_chars(&v, &yml) || same_chars(&v, &lexc)
}

} // verus!
