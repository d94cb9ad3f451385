//! What surrounds the commands: which configuration a run goes by, what it
//! says of itself, and the short reports of the smaller commands.

use vstd::prelude::*;

use crate::config::{CliOverrides, Config};
use crate::discovery::DiscoveredProject;
use crate::json::{
    ConfigResult, DiscoveryProject, DiscoveryResult, Envelope, IgnoreResult, InitResult,
    SafelistResult,
};
use crate::paths::{components, has_root, strip_prefix, Component};
use crate::text::{cat2, cat3, decimal_text, push_line};

verus! {

/// How a run under `--json` ends: in success.
pub const EXIT_OK: i32 = 0;

/// How a run ends that failed.
pub const EXIT_ERROR: i32 = 1;

/// How a run under `--json` ends that would have had to ask. (A usage error
/// ends with the number in between.)
pub const EXIT_APPROVAL_REQUIRED: i32 = 3;

/// The commands. Without one, a run cleans.
#[derive(Debug, Clone, Copy, PartialEq, Eq, Structural)]
pub enum Command {
    Default,
    List,
    Config,
    Ignore,
    Safelist,
    Discovery,
    Classification,
    Clean,
    Init,
}

/// The name of a command in documents.
pub open spec fn command_name(command: Command) -> Seq<char> {
    match command {
        Command::Default => "clean"@,
        Command::List => "list"@,
        Command::Config => "config"@,
        Command::Ignore => "ignore"@,
        Command::Safelist => "safelist"@,
        Command::Discovery => "discovery"@,
        Command::Classification => "classification"@,
        Command::Clean => "clean"@,
        Command::Init => "init"@,
    }
}

/// The name of a command in documents. A run without a command is a clean run.
pub fn json_command_name(command: Command) -> (s: &'static str)
    ensures
        s@ == command_name(command),
{
    match command {
        Command::Default => "clean",
        Command::List => "list",
        Command::Config => "config",
        Command::Ignore => "ignore",
        Command::Safelist => "safelist",
        Command::Discovery => "discovery",
        Command::Classification => "classification",
        Command::Clean => "clean",
        Command::Init => "init",
    }
}

/// The end of the notice that `--workspace` has no effect.
pub open spec fn ignored_roots(workspaces: Seq<Seq<char>>) -> Seq<char> {
    if workspaces.len() == 1 {
        workspaces[0] + " is ignored"@
    } else {
        "("@ + crate::text::decimal(workspaces.len()) + " paths) is ignored"@
    }
}

fn ignored_roots_text(workspaces: &[String]) -> (out: String)
    ensures
        out@ == ignored_roots(crate::text::texts(workspaces@)),
{
    assert(workspaces@.len() > 0 ==> crate::text::texts(workspaces@)[0] == workspaces@[0]@);
    if workspaces.len() == 1 {
        cat2(workspaces[0].as_str(), " is ignored")
    } else {
        let n = decimal_text(workspaces.len() as u64);
        cat3("(", n.as_str(), " paths) is ignored")
    }
}

/// The notice that a command has no use for `--workspace`.
pub open spec fn roots_notice(
    command: Command,
    targeted: bool,
    workspaces: Seq<Seq<char>>,
) -> Option<Seq<char>> {
    if workspaces.len() == 0 {
        None
    } else if command == Command::Clean && targeted {
        Some(
            "offcut: clean <PROJECT_PATH> scopes the run to that project; --workspace "@
                + ignored_roots(workspaces),
        )
    } else if command == Command::Init {
        Some(
            "offcut: init <WORKSPACE> uses the positional workspace; --workspace "@
                + ignored_roots(workspaces),
        )
    } else {
        None
    }
}

/// The notice that a command has no use for `--workspace`: cleaning a named
/// project, and `init`, which takes its root as an argument.
pub fn workspace_notice(command: Command, targeted: bool, workspaces: &[String]) -> (r: Option<
    String,
>)
    ensures
        crate::text::opt_text(r) == roots_notice(
            command,
            targeted,
            crate::text::texts(workspaces@),
        ),
{
    if workspaces.len() == 0 {
        None
    } else if command == Command::Clean && targeted {
        let tail = ignored_roots_text(workspaces);
        Some(
            cat2(
                "offcut: clean <PROJECT_PATH> scopes the run to that project; --workspace ",
                tail.as_str(),
            ),
        )
    } else if command == Command::Init {
        let tail = ignored_roots_text(workspaces);
        Some(
            cat2(
                "offcut: init <WORKSPACE> uses the positional workspace; --workspace ",
                tail.as_str(),
            ),
        )
    } else {
        None
    }
}

/// The message of a run that failed.
pub fn failure_line(error: &str) -> (out: String)
    ensures
        out@ == "offcut: "@ + error@,
{
    cat2("offcut: ", error)
}

/// A warning about a project.
pub fn warning(path: &str, what: &str, error: &str) -> (out: String)
    ensures
        out@ == "warning: "@ + path@ + ": "@ + what@ + ": "@ + error@,
{
    let mut out = cat3("warning: ", path, ": ");
    out.append(what);
    out.append(": ");
    out.append(error);
    out
}

/// The document of a run that failed, and how it ends.
pub fn json_err<R>(command: &'static str, error: String) -> (r: (Envelope<R>, i32))
    ensures
        r.0.version == crate::json::VERSION,
        r.0.command == command,
        !r.0.ok,
        r.0.result is None,
        r.0.error == Some(crate::json::ErrorBody { message: error }),
        r.1 == EXIT_ERROR,
{
    (crate::json::err(command, error), EXIT_ERROR)
}

/// Whether a path goes up somewhere.
pub open spec fn goes_up(p: Seq<char>) -> bool {
    crate::paths::parts(p).contains(crate::paths::Part::Up)
}

/// What a path is relative to a project's root, or why it cannot be told.
pub open spec fn relative_to_project(root: Seq<char>, p: Seq<char>) -> Result<
    Seq<char>,
    Seq<char>,
> {
    let rel = match crate::paths::stripped(p, root) {
        Some(rest) => Some(rest),
        None => if crate::paths::rooted(p) {
            None
        } else {
            Some(p)
        },
    };
    match rel {
        None => Err("path is outside the project root "@ + root + ": "@ + p),
        Some(r) => if goes_up(r) {
            Err("path escapes the project root: "@ + p)
        } else {
            Ok(r)
        },
    }
}

fn has_parent_component(p: &str) -> (r: bool)
    ensures
        r == goes_up(p@),
{
    let all = components(p);
    let ghost ps = crate::paths::parts(p@);
    let mut i: usize = 0;
    while i < all.len()
        invariant
            i <= all@.len(),
            ps == crate::paths::parts(p@),
            crate::paths::views(all@) == ps,
            forall|k: int| 0 <= k < i ==> #[trigger] ps[k] != crate::paths::Part::Up,
        decreases all@.len() - i,
    {
        assert(ps[i as int] == all@[i as int]@);
        match &all[i] {
            Component::ParentDir => {
                assert(ps[i as int] == crate::paths::Part::Up);
                return true;
            },
            _ => {},
        }
        i = i + 1;
    }
    assert(ps.len() == all@.len());
    false
}

/// A path relative to a project's root. A path outside the root, or one that
/// goes up, is refused: rules that hold inside the project say nothing of it,
/// and an answer would read as leave to delete it.
pub fn project_relative(root: &str, p: &str) -> (r: Result<String, String>)
    ensures
        crate::clean::reply_text(r) == relative_to_project(root@, p@),
{
    let rel = match strip_prefix(p, root) {
        Some(rest) => rest,
        None => {
            if has_root(p) {
                let mut msg = cat3("path is outside the project root ", root, ": ");
                msg.append(p);
                return Err(msg);
            }
            p.to_owned()
        },
    };
    if has_parent_component(rel.as_str()) {
        return Err(cat2("path escapes the project root: ", p));
    }
    Ok(rel)
}

/// Which configuration file a run reads, if any.
pub open spec fn config_choice(
    given: Option<Seq<char>>,
    given_is_file: bool,
    fallback: Option<Seq<char>>,
) -> Result<Option<Seq<char>>, Seq<char>> {
    match given {
        Some(p) => if given_is_file {
            Ok(Some(p))
        } else {
            Err("config file not found: "@ + p)
        },
        None => Ok(fallback),
    }
}

/// Which configuration file a run reads: the one that was given, which must be
/// a file, else `fallback`, the default one, which need not be there.
pub fn config_path(given: &Option<String>, given_is_file: bool, fallback: &Option<String>) -> (r:
    Result<Option<String>, String>)
    ensures
        match config_choice(
            crate::text::opt_text(*given),
            given_is_file,
            crate::text::opt_text(*fallback),
        ) {
            Ok(p) => r is Ok && crate::text::opt_text(r->Ok_0) == p,
            Err(e) => r is Err && r->Err_0@ == e,
        },
{
    match given {
        Some(p) => if given_is_file {
            Ok(Some(p.clone()))
        } else {
            Err(cat2("config file not found: ", p.as_str()))
        },
        None => match fallback {
            Some(p) => Ok(Some(p.clone())),
            None => Ok(None),
        },
    }
}

/// The configuration of a run and where it comes from. `file` is what the file
/// at `path` gave (see [`Config::load`]).
pub fn load_cli_config(path: Option<String>, file: Option<Result<Config, String>>) -> (r: Result<
    (Option<String>, Config),
    String,
>)
    ensures
        match path {
            None => r is Ok && r->Ok_0.0 is None && crate::config::is_default(r->Ok_0.1),
            Some(p) => match file {
                None => r is Ok && r->Ok_0.0 == Some(p) && crate::config::is_default(r->Ok_0.1),
                Some(Ok(c)) => r is Ok && r->Ok_0 == (Some(p), c),
                Some(Err(e)) => r is Err && r->Err_0 == e,
            },
        },
{
    match path {
        None => Ok((None, Config::default())),
        Some(p) => match Config::load_or_default(file) {
            Ok(c) => Ok((Some(p), c)),
            Err(e) => Err(e),
        },
    }
}

/// What is at the path that `init` is to write to.
#[derive(Debug, Clone, Copy, PartialEq, Eq, Structural)]
pub enum Occupant {
    Nothing,
    File,
    Other,
}

/// Where `init` writes: the file that was given, else the default one.
pub fn init_target(given: &Option<String>, fallback: &Option<String>) -> (r: Result<String, String>)
    ensures
        crate::clean::reply_text(r) == match (
            crate::text::opt_text(*given),
            crate::text::opt_text(*fallback),
        ) {
            (Some(p), _) => Ok::<Seq<char>, Seq<char>>(p),
            (None, Some(p)) => Ok(p),
            (None, None) => Err("could not determine platform config dir"@),
        },
{
    match given {
        Some(p) => Ok(p.clone()),
        None => match fallback {
            Some(p) => Ok(p.clone()),
            None => Err("could not determine platform config dir".to_owned()),
        },
    }
}

/// Whether `init` may write to a path: nothing must be there, not even a
/// dangling link.
pub fn init_allowed(target: &str, occupant: Occupant) -> (r: Result<(), String>)
    ensures
        match occupant {
            Occupant::Nothing => r is Ok,
            Occupant::File => r is Err && r->Err_0@ == "config file already exists: "@ + target@,
            Occupant::Other => r is Err && r->Err_0@ == "target exists and is not a file: "@
                + target@,
        },
{
    match occupant {
        Occupant::Nothing => Ok(()),
        Occupant::File => Err(cat2("config file already exists: ", target)),
        Occupant::Other => Err(cat2("target exists and is not a file: ", target)),
    }
}

/// The root that `init` writes down: the real path of a folder that exists, the
/// text that was given for one that does not.
pub fn init_root(workspace: &str, canonical: Option<Result<String, String>>) -> (r: Result<
    String,
    String,
>)
    ensures
        crate::clean::reply_text(r) == match canonical {
            Some(c) => crate::clean::reply_text(c),
            None => Ok(workspace@),
        },
{
    match canonical {
        Some(c) => c,
        None => Ok(workspace.to_owned()),
    }
}

/// The value of the configuration that `init` writes down: the built-in one, with
/// one root.
pub open spec fn init_settings(workspace: Seq<char>) -> crate::config::Settings {
    crate::config::Settings {
        workspace_roots: seq![workspace],
        ..crate::config::default_settings()
    }
}

/// The configuration that `init` writes down: the built-in one, with one root.
pub fn init_config(workspace: String) -> (c: Config)
    ensures
        c@ == init_settings(workspace@),
{
    let mut c = Config::default();
    assert(crate::text::texts(c.workspace_roots@).len() == c.workspace_roots@.len());
    let ghost root = workspace@;
    c.workspace_roots.push(workspace);
    assert(crate::text::texts(c.workspace_roots@) =~= seq![root]);
    c
}

/// The comment that heads a configuration file.
pub open spec fn template_header() -> Seq<char> {
    "# offcut config — each field is documented below.\n#\n# workspace_roots: paths offcut scans for projects.\n# safe_delete: glob patterns extending the built-in safe-to-delete catalog.\n# max_depth: recursion depth for project discovery (default 4).\n# project_markers: marker files used to detect projects (the default list\n#   is shown below; add your own markers alongside the built-ins).\n# default_mode: \"interactive\" (default) or \"force\".\n#\n# To add more workspace roots, append them to the workspace_roots array below.\n"@
}

/// The text of a new configuration file around a body.
pub open spec fn template(body: Seq<char>) -> Seq<char> {
    template_header() + "\n"@ + body
}

/// The text of a new configuration file. `body` is the configuration in TOML.
pub fn generate_init_template(body: &str) -> (out: String)
    ensures
        out@ == template(body@),
{
    cat3(
        "# offcut config — each field is documented below.\n#\n# workspace_roots: paths offcut scans for projects.\n# safe_delete: glob patterns extending the built-in safe-to-delete catalog.\n# max_depth: recursion depth for project discovery (default 4).\n# project_markers: marker files used to detect projects (the default list\n#   is shown below; add your own markers alongside the built-ins).\n# default_mode: \"interactive\" (default) or \"force\".\n#\n# To add more workspace roots, append them to the workspace_roots array below.\n",
        "\n",
        body,
    )
}

/// Whether a text is made of comment lines alone: each starts with `#`, the last
/// one ends too, and no character but tabs and the ends of lines is a control
/// character.
pub open spec fn comment_lines(block: Seq<char>) -> bool {
    &&& block.len() > 0
    &&& block[0] == '#'
    &&& block.last() == '\n'
    &&& forall|i: int| 0 <= i < block.len() - 1 && #[trigger] block[i] == '\n' ==> block[i + 1] == '#'
    &&& forall|i: int|
        0 <= i < block.len() ==> #[trigger] block[i] == '\n' || block[i] == '\t' || (block[i] as int
            >= 0x20 && block[i] as int != 0x7f)
}

/// A new configuration file is a block of comment lines, a blank line, and the
/// configuration. The first blank line of the file is the one behind the block.
pub proof fn templates_are_a_comment_block_and_the_body(body: Seq<char>)
    ensures
        comment_lines(template_header()),
        template(body)[0] == '#',
        ({
            let n = template_header().len();
            &&& template(body).take(n as int) == template_header()
            &&& template(body)[n as int] == '\n'
            &&& template(body).skip((n + 1) as int) == body
        }),
{
    reveal_strlit("\n");
    reveal_strlit("# offcut config — each field is documented below.\n#\n# workspace_roots: paths offcut scans for projects.\n# safe_delete: glob patterns extending the built-in safe-to-delete catalog.\n# max_depth: recursion depth for project discovery (default 4).\n# project_markers: marker files used to detect projects (the default list\n#   is shown below; add your own markers alongside the built-ins).\n# default_mode: \"interactive\" (default) or \"force\".\n#\n# To add more workspace roots, append them to the workspace_roots array below.\n");
    let header = template_header();
    assert(template(body).take(header.len() as int) =~= header);
    assert(template(body).skip((header.len() + 1) as int) =~= body);
}

/// A new configuration file reads back as the built-in configuration with its one
/// root, for every way of reading configuration files that takes comment lines for
/// nothing, and reads the body as the configuration it was written from.
pub proof fn new_files_read_back(
    workspace: Seq<char>,
    body: Seq<char>,
    read: spec_fn(Seq<char>) -> Result<crate::config::Settings, Seq<char>>,
)
    requires
        forall|block: Seq<char>, text: Seq<char>|
            comment_lines(block) && read(text) is Ok ==> #[trigger] read(block + "\n"@ + text)
                == read(text),
        read(body) == Ok::<crate::config::Settings, Seq<char>>(init_settings(workspace)),
    ensures
        template(body)[0] == '#',
        read(template(body)) == Ok::<crate::config::Settings, Seq<char>>(
            crate::config::Settings {
                workspace_roots: seq![workspace],
                ..crate::config::default_settings()
            },
        ),
{
    templates_are_a_comment_block_and_the_body(body);
    assert(read(template_header() + "\n"@ + body) == read(body));
}

/// What `init` prints.
pub fn run_init(target: &str) -> (out: String)
    ensures
        out@ == "created config file: "@ + target@,
{
    cat2("created config file: ", target)
}

/// The document of `init`.
pub fn json_init(command: &'static str, target: String) -> (e: Envelope<InitResult>)
    ensures
        e.version == crate::json::VERSION,
        e.command == command,
        e.ok,
        e.result == Some(InitResult { config_file: target, created: true }),
        e.error is None,
{
    crate::json::ok(command, InitResult { config_file: target, created: true })
}

/// The word for a flag.
pub open spec fn flag_word(b: bool) -> Seq<char> {
    if b {
        "true"@
    } else {
        "false"@
    }
}

fn flag_text(b: bool) -> (s: &'static str)
    ensures
        s@ == flag_word(b),
{
    if b {
        "true"
    } else {
        "false"
    }
}

/// The name of a mode.
pub open spec fn mode_name(m: crate::config::Mode) -> Seq<char> {
    match m {
        crate::config::Mode::Interactive => "interactive"@,
        crate::config::Mode::Force => "force"@,
    }
}

/// The roots as `config` lists them.
pub open spec fn root_lines(roots: Seq<Seq<char>>) -> Seq<Seq<char>> {
    if roots.len() == 0 {
        seq!["    (none)"@]
    } else {
        roots.map_values(|r: Seq<char>| "    - "@ + r)
    }
}

/// What `config` prints.
pub open spec fn config_lines(
    path: Option<Seq<char>>,
    cfg: Config,
    flags: CliOverrides,
) -> Seq<Seq<char>> {
    seq![
        "offcut resolved config:"@,
        "  config file: "@ + match path {
            Some(p) => p,
            None => "(none)"@,
        },
        "  default_mode: "@ + mode_name(cfg.default_mode),
        "  max_depth: "@ + crate::text::decimal(cfg.max_depth as nat),
        "  workspace_roots:"@,
    ] + root_lines(crate::text::texts(cfg.workspace_roots@)) + seq![
        "  flags: dry_run="@ + flag_word(flags.dry_run) + ", force="@ + flag_word(flags.force)
            + ", verbose="@ + flag_word(flags.verbose),
    ]
}

/// What `config` prints: the configuration with the flags applied, and the
/// flags.
pub fn run_config(path: &Option<String>, cfg: &Config, flags: &CliOverrides) -> (out: Vec<String>)
    ensures
        crate::text::texts(out@) == config_lines(crate::text::opt_text(*path), *cfg, *flags),
{
    let mut out: Vec<String> = Vec::new();
    push_line(&mut out, "offcut resolved config:".to_owned());
    let file = match path {
        Some(p) => p.as_str(),
        None => "(none)",
    };
    push_line(&mut out, cat2("  config file: ", file));
    push_line(&mut out, cat2("  default_mode: ", cfg.default_mode.name()));
    let depth = decimal_text(cfg.max_depth as u64);
    push_line(&mut out, cat2("  max_depth: ", depth.as_str()));
    push_line(&mut out, "  workspace_roots:".to_owned());
    let ghost top = crate::text::texts(out@);
    let ghost roots = crate::text::texts(cfg.workspace_roots@);
    if cfg.workspace_roots.len() == 0 {
        push_line(&mut out, "    (none)".to_owned());
        assert(crate::text::texts(out@) =~= top + root_lines(roots));
    } else {
        let ghost lines = roots.map_values(|r: Seq<char>| "    - "@ + r);
        let mut i: usize = 0;
        assert(crate::text::texts(out@) =~= top + lines.take(0));
        while i < cfg.workspace_roots.len()
            invariant
                i <= cfg.workspace_roots@.len(),
                roots == crate::text::texts(cfg.workspace_roots@),
                lines == roots.map_values(|r: Seq<char>| "    - "@ + r),
                crate::text::texts(out@) == top + lines.take(i as int),
            decreases cfg.workspace_roots@.len() - i,
        {
            let ghost before = crate::text::texts(out@);
            let line = cat2("    - ", cfg.workspace_roots[i].as_str());
            assert(lines[i as int] == line@);
            push_line(&mut out, line);
            i = i + 1;
            assert(before.push(lines[i - 1]) =~= top + lines.take(i as int));
        }
        assert(lines.take(i as int) =~= lines);
    }
    let mut flags_line = cat3("  flags: dry_run=", flag_text(flags.dry_run), ", force=");
    flags_line.append(flag_text(flags.force));
    flags_line.append(", verbose=");
    flags_line.append(flag_text(flags.verbose));
    push_line(&mut out, flags_line);
    assert(crate::text::texts(out@) =~= config_lines(crate::text::opt_text(*path), *cfg, *flags));
    out
}

/// The document of `config`.
pub fn json_config(
    command: &'static str,
    path: Option<String>,
    cfg: Config,
    flags: &CliOverrides,
) -> (e: Envelope<ConfigResult>)
    ensures
        e.version == crate::json::VERSION,
        e.command == command,
        e.ok,
        e.error is None,
        e.result is Some,
        ({
            let r = e.result->0;
            &&& r.config_file == path
            &&& r.default_mode@ == mode_name(cfg.default_mode)
            &&& r.max_depth == cfg.max_depth
            &&& r.workspace_roots == cfg.workspace_roots
            &&& r.safe_delete == cfg.safe_delete
            &&& r.project_markers == cfg.project_markers
            &&& r.force == flags.force
            &&& r.dry_run == flags.dry_run
            &&& r.verbose == flags.verbose
        }),
{
    let mode = cfg.default_mode.name().to_owned();
    crate::json::ok(
        command,
        ConfigResult {
            config_file: path,
            default_mode: mode,
            max_depth: cfg.max_depth,
            workspace_roots: cfg.workspace_roots,
            safe_delete: cfg.safe_delete,
            project_markers: cfg.project_markers,
            force: flags.force,
            dry_run: flags.dry_run,
            verbose: flags.verbose,
        },
    )
}

/// What `discovery` prints.
pub open spec fn discovery_lines(found: Seq<crate::discovery::Found>) -> Seq<Seq<char>> {
    if found.len() == 0 {
        seq!["discovery: no projects found"@]
    } else {
        seq!["discovered "@ + crate::text::decimal(found.len()) + " project(s):"@]
            + found.map_values(|p: crate::discovery::Found| discovery_line(p))
    }
}

/// The line of a project in `discovery`.
pub open spec fn discovery_line(p: crate::discovery::Found) -> Seq<char> {
    "  "@ + p.path + " ("@ + p.marker + ")"@
}

/// What `discovery` prints: every project with its marker.
pub fn run_discovery(found: &[DiscoveredProject]) -> (out: Vec<String>)
    ensures
        crate::text::texts(out@) == discovery_lines(crate::discovery::found_views(found@)),
{
    let mut out: Vec<String> = Vec::new();
    let ghost all = crate::discovery::found_views(found@);
    if found.len() == 0 {
        push_line(&mut out, "discovery: no projects found".to_owned());
        assert(crate::text::texts(out@) =~= seq!["discovery: no projects found"@]);
        return out;
    }
    let n = decimal_text(found.len() as u64);
    push_line(&mut out, cat3("discovered ", n.as_str(), " project(s):"));
    let ghost head = seq!["discovered "@ + crate::text::decimal(all.len()) + " project(s):"@];
    let ghost lines = all.map_values(|p: crate::discovery::Found| discovery_line(p));
    let mut i: usize = 0;
    assert(crate::text::texts(out@) =~= head + lines.take(0));
    while i < found.len()
        invariant
            i <= found@.len(),
            all == crate::discovery::found_views(found@),
            lines == all.map_values(|p: crate::discovery::Found| discovery_line(p)),
            crate::text::texts(out@) == head + lines.take(i as int),
        decreases found@.len() - i,
    {
        let ghost before = crate::text::texts(out@);
        let mut line = cat3("  ", found[i].path.as_str(), " (");
        line.append(found[i].marker.as_str());
        line.append(")");
        assert(lines[i as int] == line@);
        push_line(&mut out, line);
        i = i + 1;
        assert(before.push(lines[i - 1]) =~= head + lines.take(i as int));
    }
    assert(lines.take(i as int) =~= lines);
    out
}

/// The document of `discovery`: every project with its marker.
pub fn json_discovery(command: &'static str, found: &[DiscoveredProject]) -> (e: Envelope<
    DiscoveryResult,
>)
    ensures
        e.version == crate::json::VERSION,
        e.command == command,
        e.ok,
        e.error is None,
        e.result is Some,
        e.result->0.projects@.len() == found@.len(),
        forall|i: int|
            0 <= i < found@.len() ==> (#[trigger] e.result->0.projects@[i]).path@ == found@[i].path@
                && e.result->0.projects@[i].marker@ == found@[i].marker@,
{
    let mut projects: Vec<DiscoveryProject> = Vec::new();
    let mut i: usize = 0;
    while i < found.len()
        invariant
            i <= found@.len(),
            projects@.len() == i,
            forall|k: int|
                0 <= k < i ==> (#[trigger] projects@[k]).path@ == found@[k].path@
                    && projects@[k].marker@ == found@[k].marker@,
        decreases found@.len() - i,
    {
        projects.push(
            DiscoveryProject { path: found[i].path.clone(), marker: found[i].marker.clone() },
        );
        i = i + 1;
    }
    crate::json::ok(command, DiscoveryResult { projects })
}

/// What `ignore` prints of a path.
pub fn run_ignore(path: &str, ignored: bool) -> (out: String)
    ensures
        out@ == path@ + ": "@ + if ignored {
            "ignored"@
        } else {
            "not-ignored"@
        },
{
    cat3(
        path,
        ": ",
        if ignored {
            "ignored"
        } else {
            "not-ignored"
        },
    )
}

/// The document of `ignore`.
pub fn json_ignore(command: &'static str, path: String, ignored: bool) -> (e: Envelope<
    IgnoreResult,
>)
    ensures
        e.version == crate::json::VERSION,
        e.command == command,
        e.ok,
        e.result == Some(IgnoreResult { path, ignored }),
        e.error is None,
{
    crate::json::ok(command, IgnoreResult { path, ignored })
}

/// What `safelist` prints of a path.
pub fn run_safelist(path: &str, safe: bool) -> (out: String)
    ensures
        out@ == path@ + ": "@ + if safe {
            "safe"@
        } else {
            "not-safe"@
        },
{
    cat3(
        path,
        ": ",
        if safe {
            "safe"
        } else {
            "not-safe"
        },
    )
}

/// The document of `safelist`.
pub fn json_safelist(command: &'static str, path: String, safe: bool) -> (e: Envelope<
    SafelistResult,
>)
    ensures
        e.version == crate::json::VERSION,
        e.command == command,
        e.ok,
        e.result == Some(SafelistResult { path, safe }),
        e.error is None,
{
    crate::json::ok(command, SafelistResult { path, safe })
}

/// A path is taken as relative to a project only if it stays inside: one that is absolute
/// and not below the root is refused, and so is one that goes up anywhere behind the root;
/// a relative path that does not start with the root and goes up nowhere is taken as it is.
pub proof fn paths_outside_the_project_are_refused(root: Seq<char>, p: Seq<char>)
    ensures
        relative_to_project(root, p) is Ok ==> forall|i: int|
            0 <= i < crate::paths::parts(relative_to_project(root, p)->Ok_0).len()
                ==> #[trigger] crate::paths::parts(relative_to_project(root, p)->Ok_0)[i]
                != crate::paths::Part::Up,
        p.len() > 0 && p[0] == '/' && !crate::paths::parts(root).is_prefix_of(
            crate::paths::parts(p),
        ) ==> relative_to_project(root, p) is Err,
        !(p.len() > 0 && p[0] == '/') && !crate::paths::parts(root).is_prefix_of(
            crate::paths::parts(p),
        ) && (forall|i: int|
            0 <= i < crate::paths::parts(p).len() ==> #[trigger] crate::paths::parts(p)[i]
                != crate::paths::Part::Up) ==> relative_to_project(root, p) == Ok::<
            Seq<char>,
            Seq<char>,
        >(p),
        crate::paths::parts(root).len() > 0 && crate::paths::parts(root).is_prefix_of(
            crate::paths::parts(p),
        ) && relative_to_project(root, p) is Ok ==> crate::paths::parts(p) == crate::paths::parts(
            root,
        ) + crate::paths::parts(relative_to_project(root, p)->Ok_0),
{
    if let Some(rest) = crate::paths::stripped(p, root) {
        if crate::paths::parts(root).len() > 0 {
            crate::paths::what_is_stripped_can_be_put_back(p, root);
        }
    }
    if relative_to_project(root, p) is Ok {
        let r = relative_to_project(root, p)->Ok_0;
        assert forall|i: int| 0 <= i < crate::paths::parts(
            r,
        ).len() implies #[trigger] crate::paths::parts(r)[i] != crate::paths::Part::Up by {
            assert(crate::paths::parts(r).contains(crate::paths::parts(r)[i]));
        }
    }
}

/// A run reads the configuration file that was given, and only if that is a file; without
/// one, the default.
pub proof fn a_given_file_is_the_one_that_is_read(
    given: Seq<char>,
    fallback: Option<Seq<char>>,
)
    ensures
        config_choice(Some(given), true, fallback) == Ok::<Option<Seq<char>>, Seq<char>>(
            Some(given),
        ),
        config_choice(Some(given), false, fallback) is Err,
        config_choice(None, true, fallback) == Ok::<Option<Seq<char>>, Seq<char>>(fallback),
        config_choice(None, false, fallback) == Ok::<Option<Seq<char>>, Seq<char>>(fallback),
{
}

/// Roots from the command line are passed over only where the command has its own place to
/// work at, and then the user is told: of one root by its path, of several by their number.
pub proof fn ignored_roots_are_told(command: Command, targeted: bool, workspaces: Seq<Seq<char>>)
    ensures
        roots_notice(command, targeted, workspaces) is Some <==> workspaces.len() > 0 && (command
            == Command::Init || (command == Command::Clean && targeted)),
        roots_notice(command, targeted, workspaces) matches Some(notice) ==> {
            let end = if workspaces.len() == 1 {
                workspaces[0] + " is ignored"@
            } else {
                "("@ + crate::text::decimal(workspaces.len()) + " paths) is ignored"@
            };
            notice.len() >= end.len() && notice.skip(notice.len() - end.len()) == end
        },
{
    if roots_notice(command, targeted, workspaces) is Some {
        let notice = roots_notice(command, targeted, workspaces)->0;
        let end = ignored_roots(workspaces);
        assert(notice.skip(notice.len() - end.len()) =~= end);
    }
}

/// The account of a configuration shows every root, in order, in a line of its own, between
/// the head and the flags; where there is none it says so.
pub proof fn every_root_is_shown(path: Option<Seq<char>>, cfg: Config, flags: CliOverrides, i: int)
    ensures
        ({
            let lines = config_lines(path, cfg, flags);
            let roots = cfg.workspace_roots@;
            let depth = crate::text::decimal(cfg.max_depth as nat);
            &&& roots.len() > 0 ==> lines.len() == roots.len() + 6
            &&& 0 <= i < roots.len() ==> lines[5 + i] == "    - "@ + roots[i]@
            &&& roots.len() == 0 ==> lines.len() == 7 && lines[5] == "    (none)"@
            &&& lines[3].len() >= depth.len() && lines[3].skip(lines[3].len() - depth.len())
                == depth
            &&& path is Some ==> lines[1] == "  config file: "@ + path->0
        }),
{
    let lines = config_lines(path, cfg, flags);
    let depth = crate::text::decimal(cfg.max_depth as nat);
    assert(lines[3] == "  max_depth: "@ + depth);
    assert(lines[3].skip(lines[3].len() - depth.len()) =~= depth);
    let shown = root_lines(crate::text::texts(cfg.workspace_roots@));
    if 0 <= i < cfg.workspace_roots@.len() {
        assert(lines[5 + i] == shown[i]);
    }
}

/// A list of what was discovered has a line for every project, in order, with its path and
/// its marker.
pub proof fn every_discovery_is_listed(found: Seq<crate::discovery::Found>, i: int)
    requires
        0 <= i < found.len(),
    ensures
        discovery_lines(found).len() == found.len() + 1,
        discovery_lines(found)[i + 1] == "  "@ + found[i].path + " ("@ + found[i].marker + ")"@,
{
}

} // verus!
