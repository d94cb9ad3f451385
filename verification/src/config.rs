//! Configuration: what to scan, what counts as a project, what else is safe
//! to delete, and how command-line flags override the file.

use vstd::prelude::*;

use crate::paths::join_path;

verus! {

/// How delete operations ask.
#[derive(Debug, Clone, Copy, PartialEq, Eq, Structural)]
pub enum Mode {
    /// Prompt before deleting anything.
    Interactive,
    /// Delete without prompting.
    Force,
}

impl Default for Mode {
    fn default() -> (m: Self)
        ensures
            m == Mode::Interactive,
    {
        Mode::Interactive
    }
}

impl Mode {
    /// The mode's name in configuration files and reports.
    pub fn name(&self) -> (s: &'static str)
        ensures
            s@ == match *self {
                Mode::Interactive => "interactive"@,
                Mode::Force => "force"@,
            },
    {
        match self {
            Mode::Interactive => "interactive",
            Mode::Force => "force",
        }
    }
}

/// The resolved configuration.
#[derive(Debug, Clone, PartialEq)]
pub struct Config {
    /// Directories that are scanned for projects.
    pub workspace_roots: Vec<String>,
    /// Patterns that extend the built-in safe-to-delete catalog.
    pub safe_delete: Vec<String>,
    /// How deep below a workspace root projects are looked for.
    pub max_depth: usize,
    /// File names and globs by which a project is recognised.
    pub project_markers: Vec<String>,
    /// How delete operations ask when no flag says otherwise.
    pub default_mode: Mode,
}

/// The project markers of the built-in configuration.
pub open spec fn default_markers() -> Seq<Seq<char>> {
    seq![
        ".git"@,
        "package.json"@,
        "Cargo.toml"@,
        "go.mod"@,
        "pyproject.toml"@,
        "pom.xml"@,
        "build.gradle"@,
        "*.csproj"@,
    ]
}

/// The value of a [`Config`].
pub struct Settings {
    pub workspace_roots: Seq<Seq<char>>,
    pub safe_delete: Seq<Seq<char>>,
    pub max_depth: usize,
    pub project_markers: Seq<Seq<char>>,
    pub default_mode: Mode,
}

impl View for Config {
    type V = Settings;

    open spec fn view(&self) -> Settings {
        Settings {
            workspace_roots: crate::text::texts(self.workspace_roots@),
            safe_delete: crate::text::texts(self.safe_delete@),
            max_depth: self.max_depth,
            project_markers: crate::text::texts(self.project_markers@),
            default_mode: self.default_mode,
        }
    }
}

/// The value of the built-in configuration.
pub open spec fn default_settings() -> Settings {
    Settings {
        workspace_roots: Seq::empty(),
        safe_delete: Seq::empty(),
        max_depth: 4,
        project_markers: default_markers(),
        default_mode: Mode::Interactive,
    }
}

/// Whether `c` is the built-in configuration.
pub open spec fn is_default(c: Config) -> bool {
    c@ == default_settings()
}

impl Default for Config {
    fn default() -> (c: Self)
        ensures
            is_default(c),
    {
        let mut markers: Vec<String> = Vec::new();
        markers.push(".git".to_owned());
        markers.push("package.json".to_owned());
        markers.push("Cargo.toml".to_owned());
        markers.push("go.mod".to_owned());
        markers.push("pyproject.toml".to_owned());
        markers.push("pom.xml".to_owned());
        markers.push("build.gradle".to_owned());
        markers.push("*.csproj".to_owned());
        assert(crate::text::texts(markers@) =~= default_markers());
        let c = Config {
            workspace_roots: Vec::new(),
            safe_delete: Vec::new(),
            max_depth: 4,
            project_markers: markers,
            default_mode: Mode::Interactive,
        };
        assert(c@.workspace_roots =~= Seq::<Seq<char>>::empty());
        assert(c@.safe_delete =~= Seq::<Seq<char>>::empty());
        c
    }
}

/// The command-line flags that bear on the configuration.
#[derive(Debug, Clone, PartialEq, Eq)]
pub struct CliOverrides {
    /// Workspace roots to add.
    pub workspace: Vec<String>,
    /// Force the mode to [`Mode::Force`].
    pub force: bool,
    /// Dry run; not part of the configuration.
    pub dry_run: bool,
    /// Verbose output; not part of the configuration.
    pub verbose: bool,
}

impl Default for CliOverrides {
    fn default() -> (o: Self)
        ensures
            o.workspace@.len() == 0,
            !o.force,
            !o.dry_run,
            !o.verbose,
    {
        CliOverrides { workspace: Vec::new(), force: false, dry_run: false, verbose: false }
    }
}

impl Config {
    /// The configuration that a file gives. `file` is `None` where there is no
    /// regular file, and otherwise what parsing the file gave.
    pub fn load(file: Option<Result<Config, String>>) -> (r: Result<Option<Config>, String>)
        ensures
            match file {
                None => r is Ok && r->Ok_0 is None,
                Some(Ok(c)) => r is Ok && r->Ok_0 == Some(c),
                Some(Err(e)) => r is Err && r->Err_0 == e,
            },
    {
        match file {
            None => Ok(None),
            Some(Ok(c)) => Ok(Some(c)),
            Some(Err(e)) => Err(e),
        }
    }

    /// As [`Config::load`], with the built-in configuration in place of a
    /// missing file.
    pub fn load_or_default(file: Option<Result<Config, String>>) -> (r: Result<Config, String>)
        ensures
            match file {
                None => r is Ok && is_default(r->Ok_0),
                Some(Ok(c)) => r is Ok && r->Ok_0 == c,
                Some(Err(e)) => r is Err && r->Err_0 == e,
            },
    {
        match Config::load(file) {
            Ok(Some(c)) => Ok(c),
            Ok(None) => Ok(Config::default()),
            Err(e) => Err(e),
        }
    }

    /// Applies the flags: extra workspace roots come after the configured
    /// ones, and `force` sets the mode. Everything else stays.
    pub fn apply_overrides(self, overrides: &CliOverrides) -> (c: Config)
        ensures
            crate::text::texts(c.workspace_roots@) == crate::text::texts(self.workspace_roots@)
                + crate::text::texts(overrides.workspace@),
            c.default_mode == if overrides.force {
                Mode::Force
            } else {
                self.default_mode
            },
            c.safe_delete == self.safe_delete,
            c.max_depth == self.max_depth,
            c.project_markers == self.project_markers,
    {
        let mut c = self;
        let ghost had = crate::text::texts(c.workspace_roots@);
        let ghost extra = crate::text::texts(overrides.workspace@);
        let mut i: usize = 0;
        assert(had + extra.take(0) =~= had);
        while i < overrides.workspace.len()
            invariant
                i <= overrides.workspace@.len(),
                extra == crate::text::texts(overrides.workspace@),
                crate::text::texts(c.workspace_roots@) == had + extra.take(i as int),
                c.default_mode == self.default_mode,
                c.safe_delete == self.safe_delete,
                c.max_depth == self.max_depth,
                c.project_markers == self.project_markers,
            decreases overrides.workspace@.len() - i,
        {
            let ghost before = crate::text::texts(c.workspace_roots@);
            c.workspace_roots.push(overrides.workspace[i].clone());
            assert(crate::text::texts(c.workspace_roots@) =~= before.push(extra[i as int]));
            i = i + 1;
            assert(before.push(extra[i - 1]) =~= had + extra.take(i as int));
        }
        assert(extra.take(i as int) =~= extra);
        if overrides.force {
            c.default_mode = Mode::Force;
        }
        c
    }
}

/// The configuration file inside the platform's configuration directory.
pub open spec fn config_file_in(dir: Seq<char>) -> Seq<char> {
    crate::paths::joined_path(crate::paths::joined_path(dir, "devclean"@), "config.toml"@)
}

/// `dirs::config_dir`: the directory for configuration files, as the
/// environment gives it. Nothing is claimed of the result.
#[verifier::external_body]
fn platform_config_dir() -> (dir: Option<String>) {
    dirs::config_dir().map(|d| d.to_string_lossy().into_owned())
}

/// The configuration file inside `dir`; `None` where there is no such
/// directory.
pub fn config_path_in(dir: Option<String>) -> (out: Option<String>)
    ensures
        crate::text::opt_text(out) == match dir {
            Some(d) => Some(config_file_in(d@)),
            None => None,
        },
{
    match dir {
        Some(d) => {
            let below = join_path(d.as_str(), "devclean");
            Some(join_path(below.as_str(), "config.toml"))
        },
        None => None,
    }
}

/// The default configuration file; `None` where the platform names no
/// configuration directory.
pub fn default_config_path() -> (out: Option<String>)
    ensures
        out matches Some(p) ==> exists|d: Seq<char>| p@ == #[trigger] config_file_in(d),
{
    let dir = platform_config_dir();
    let ghost d = crate::text::opt_text(dir);
    let out = config_path_in(dir);
    assert(out is Some ==> out->0@ == config_file_in(d->0));
    out
}

/// The configuration file lies two components below the directory for such files.
pub proof fn the_file_lies_below_its_directory(dir: Seq<char>)
    ensures
        crate::paths::parts(config_file_in(dir)) == crate::paths::parts(dir).push(
            crate::paths::Part::Name("devclean"@),
        ).push(crate::paths::Part::Name("config.toml"@)),
{
    reveal_strlit("devclean");
    reveal_strlit("config.toml");
    assert("config.toml"@ =~= seq!['c', 'o', 'n', 'f', 'i', 'g', '.', 't', 'o', 'm', 'l']);
    crate::paths::joining_adds_a_component(dir, "devclean"@);
    crate::paths::joining_adds_a_component(
        crate::paths::joined_path(dir, "devclean"@),
        "config.toml"@,
    );
}

} // verus!
