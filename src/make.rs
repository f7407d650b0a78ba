//! The build tool's command line: one command, the options, and at most one
//! project directory.
use vstd::prelude::*;

use crate::cli::{is_word, views};

verus! {

/// What the build tool is asked to do.
#[derive(Clone, Copy, Debug, PartialEq, Eq, Structural)]
pub enum RunCommand {
    /// Create a new project.
    Init,
    /// Compile everything that changed.
    Build,
    /// Remove what was built.
    Clean,
    /// Serve the project and rebuild it as it changes.
    Live,
}

impl RunCommand {
    /// The command's name on the command line.
    pub open spec fn name_of(self) -> Seq<char> {
        match self {
            RunCommand::Init => "init"@,
            RunCommand::Build => "build"@,
            RunCommand::Clean => "clean"@,
            RunCommand::Live => "live"@,
        }
    }

    /// The command's name on the command line.
    pub fn to_string(&self) -> (r: String)
        ensures
            r@ == self.name_of(),
    {
        match self {
            RunCommand::Init => "init".to_owned(),
            RunCommand::Build => "build".to_owned(),
            RunCommand::Clean => "clean".to_owned(),
            RunCommand::Live => "live".to_owned(),
        }
    }
}

/// The command that the argument `a` names, by its name or first letter.
pub open spec fn command_of(a: Seq<char>) -> Option<RunCommand> {
    if a == "i"@ || a == "init"@ {
        Some(RunCommand::Init)
    } else if a == "b"@ || a == "build"@ {
        Some(RunCommand::Build)
    } else if a == "c"@ || a == "clean"@ {
        Some(RunCommand::Clean)
    } else if a == "l"@ || a == "live"@ {
        Some(RunCommand::Live)
    } else {
        None
    }
}

/// The build tool's arguments as sorted values: lame, dryrun, the commands
/// and the project directories, in order.
pub open spec fn sort_make_args(args: Seq<Seq<char>>) -> (bool, bool, Seq<RunCommand>, Seq<Seq<char>>)
    decreases args.len(),
{
    if args.len() == 0 {
        (false, false, Seq::empty(), Seq::empty())
    } else {
        let (l, d, cmds, dirs) = sort_make_args(args.drop_last());
        let a = args.last();
        if command_of(a) is Some {
            (l, d, cmds.push(command_of(a)->0), dirs)
        } else if a == "-l"@ || a == "--lame"@ {
            (true, d, cmds, dirs)
        } else if a == "-d"@ || a == "--dryrun"@ {
            (l, true, cmds, dirs)
        } else {
            (l, d, cmds, dirs.push(a))
        }
    }
}

/// The options of one run of the build tool.
#[derive(Debug)]
pub struct RunContext {
    /// The run has succeeded.
    pub success: bool,
    /// Colour is forced off.
    pub lame: bool,
    /// Nothing is written.
    pub dryrun: bool,
    /// The project's directory.
    pub project_dir: String,
    /// What to do.
    pub command: RunCommand,
}

/// What is wrong with a build tool command line.
#[derive(Debug)]
pub enum ArgsError {
    /// No command was given.
    NoCommand,
    /// Several commands were given: these.
    MultipleCommands(Vec<RunCommand>),
    /// Several project directories were given: these.
    MultipleProjects(Vec<String>),
}

/// The command named by `a`, if any.
pub fn command_from(a: &String) -> (r: Option<RunCommand>)
    ensures
        r == command_of(a@),
{
    if is_word(a, "i") || is_word(a, "init") {
        Some(RunCommand::Init)
    } else if is_word(a, "b") || is_word(a, "build") {
        Some(RunCommand::Build)
    } else if is_word(a, "c") || is_word(a, "clean") {
        Some(RunCommand::Clean)
    } else if is_word(a, "l") || is_word(a, "live") {
        Some(RunCommand::Live)
    } else {
        None
    }
}

/// Reads the build tool's command line: exactly one command, `-l`/`--lame`,
/// `-d`/`--dryrun`, and at most one project directory, `./` where none is
/// given.
pub fn cli(args: &Vec<String>) -> (r: Result<RunContext, ArgsError>)
    ensures
        ({
            let (l, d, cmds, dirs) = sort_make_args(views(args@));
            &&& (cmds.len() == 0 <==> r == Err::<RunContext, ArgsError>(ArgsError::NoCommand))
            &&& (cmds.len() > 1 <==> (r is Err && r->Err_0 is MultipleCommands))
            &&& (r is Err && r->Err_0 is MultipleCommands ==> r->Err_0->MultipleCommands_0@ == cmds)
            &&& (cmds.len() == 1 && dirs.len() > 1 <==> (r is Err && r->Err_0 is MultipleProjects))
            &&& (r is Err && r->Err_0 is MultipleProjects ==> views(r->Err_0->MultipleProjects_0@) == dirs)
            &&& (r is Ok ==> ({
                let run = r->Ok_0;
                &&& !run.success
                &&& run.lame == l
                &&& run.dryrun == d
                &&& run.command == cmds[0]
                &&& run.project_dir@ == if dirs.len() == 0 { "./"@ } else { dirs[0] }
            }))
        }),
{
    let mut lame = false;
    let mut dryrun = false;
    let mut commands: Vec<RunCommand> = Vec::new();
    let mut dirs: Vec<String> = Vec::new();
    let mut i: usize = 0;
    while i < args.len()
        invariant
            i <= args@.len(),
            (lame, dryrun, commands@, views(dirs@)) == sort_make_args(views(args@.take(i as int))),
        decreases args@.len() - i,
    {
        let a = &args[i];
        proof {
            assert(views(args@.take(i + 1)).drop_last() =~= views(args@.take(i as int)));
            assert(views(args@.take(i + 1)).last() == a@);
        }
        match command_from(a) {
            Some(c) => {
                commands.push(c);
            },
            None => {
                if is_word(a, "-l") || is_word(a, "--lame") {
                    lame = true;
                } else if is_word(a, "-d") || is_word(a, "--dryrun") {
                    dryrun = true;
                } else {
                    let ghost before = dirs@;
                    dirs.push(a.clone());
                    assert(views(dirs@) =~= views(before).push(a@));
                }
            },
        }
        i += 1;
    }
    assert(args@.take(args@.len() as int) =~= args@);
    assert(views(dirs@).len() == dirs@.len());
    if commands.len() == 0 {
        return Err(ArgsError::NoCommand);
    }
    if commands.len() > 1 {
        return Err(ArgsError::MultipleCommands(commands));
    }
    if dirs.len() > 1 {
        return Err(ArgsError::MultipleProjects(dirs));
    }
    let project_dir = if dirs.len() == 0 { "./".to_owned() } else { dirs[0].clone() };
    Ok(RunContext { success: false, lame, dryrun, project_dir, command: commands[0] })
}

/// The built static files, as paths under `dist/`, that no longer have a
/// source among `statics`: each built path without its first five
/// characters, `dist/`, is looked up among the sources.
pub open spec fn stale_statics(built: Seq<Seq<char>>, statics: Seq<Seq<char>>) -> Seq<Seq<char>>
    decreases built.len(),
{
    if built.len() == 0 {
        Seq::empty()
    } else {
        let prev = stale_statics(built.drop_last(), statics);
        let b = built.last();
        let rest = b.subrange(5, b.len() as int);
        if statics.contains(rest) { prev } else { prev.push("dist/"@ + rest) }
    }
}

/// `v` holds a string whose characters are `s`.
pub fn holds(v: &Vec<String>, s: &String) -> (r: bool)
    ensures
        r == views(v@).contains(s@),
{
    let mut i: usize = 0;
    while i < v.len()
        invariant
            i <= v@.len(),
            forall|k: int| 0 <= k < i ==> views(v@)[k] != s@,
        decreases v@.len() - i,
    {
        if v[i] == *s {
            assert(views(v@)[i as int] == s@);
            return true;
        }
        i += 1;
    }
    false
}

/// The files under `dist/static/` to remove: those of `built` whose source,
/// the same path under `static/`, is not among `statics`.
pub fn list_remove_statics(statics: &Vec<String>, built: &Vec<String>) -> (r: Vec<String>)
    requires
        forall|i: int| 0 <= i < built@.len() ==> #[trigger] built@[i]@.len() >= 5,
    ensures
        views(r@) == stale_statics(views(built@), views(statics@)),
{
    let mut r: Vec<String> = Vec::new();
    let mut i: usize = 0;
    while i < built.len()
        invariant
            i <= built@.len(),
            forall|k: int| 0 <= k < built@.len() ==> #[trigger] built@[k]@.len() >= 5,
            views(r@) == stale_statics(views(built@.take(i as int)), views(statics@)),
        decreases built@.len() - i,
    {
        let b = &built[i];
        proof {
            assert(views(built@.take(i + 1)).drop_last() =~= views(built@.take(i as int)));
            assert(views(built@.take(i + 1)).last() == b@);
        }
        let len = b.as_str().unicode_len();
        let rest = b.as_str().substring_char(5, len);
        let rest_owned = rest.to_owned();
        if !holds(statics, &rest_owned) {
            let mut path = "dist/".to_owned();
            path.append(rest);
            let ghost before = r@;
            r.push(path);
            assert(views(r@) =~= views(before).push("dist/"@ + rest@));
        }
        i += 1;
    }
    assert(built@.take(built@.len() as int) =~= built@);
    r
}

/// Whether a source must be compiled: not where the configuration excludes
/// it, nor where the time it was last modified is the one cached at the last
/// build. Times are nanoseconds since the Unix epoch.
pub fn should_compile(excluded: bool, cached: Option<u128>, modified: u128) -> (r: bool)
    ensures
        r == (!excluded && cached != Some(modified)),
{
    if excluded {
        return false;
    }
    match cached {
        Some(t) => t != modified,
        None => true,
    }
}

} // verus!
