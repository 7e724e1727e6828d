//! Building an application, in the toolchain image or on this computer.
use vstd::prelude::*;
use vstd::string::*;

use crate::config;
use crate::config::{Board, Config, ProjectKind, Toolchain};
use crate::path;
use crate::path::{file_name, join_path, path_names};
use crate::text;
use crate::text::{
    cat, chars_of, contains, join, lines, push_all, push_text, starts_with, strip_prefix, trim,
};
use crate::toolchain::Tool;

verus! {

/// The file that the m68k libraries are there with.
pub const LIBRARY_LINKER_SCRIPT: &'static str = "libs/build/lib/ld/serial/hugerom_rosco_m68k_program.ld";

/// A path without the prefix that Windows puts before long ones.
pub open spec fn plain_path(path: Seq<char>) -> Seq<char> {
    if "\\\\?\\UNC\\"@.is_prefix_of(path) {
        "\\\\"@ + path.skip("\\\\?\\UNC\\"@.len() as int)
    } else if "\\\\?\\"@.is_prefix_of(path) {
        path.skip("\\\\?\\"@.len() as int)
    } else {
        path
    }
}

/// A path without the prefix that Windows puts before long ones.
pub fn strip_windows_verbatim_prefix(path: &str) -> (plain: String)
    ensures
        plain@ == plain_path(path@),
{
    if let Some(rest) = strip_prefix(path, "\\\\?\\UNC\\") {
        return cat("\\\\", rest.as_str());
    }
    match strip_prefix(path, "\\\\?\\") {
        Some(rest) => rest,
        None => path.to_owned(),
    }
}

/// A path as `docker run --volume` wants to see it.
pub fn docker_volume_source(path: &str) -> (source: String)
    ensures
        source@ == plain_path(path@),
{
    strip_windows_verbatim_prefix(path)
}

/// Those of the first names that lead down rather than up.
pub open spec fn downward(names: Seq<Seq<char>>, count: nat) -> Seq<Seq<char>>
    decreases count,
{
    if count == 0 || count > names.len() {
        Seq::empty()
    } else if names[count - 1] == ".."@ {
        downward(names, (count - 1) as nat)
    } else {
        downward(names, (count - 1) as nat).push(names[count - 1])
    }
}

/// The build directory as the container sees it.
pub open spec fn container_place(workspace: Seq<char>, directory: Seq<char>) -> Seq<char> {
    let names = path::steps(directory);
    let relative = text::joined(downward(names, names.len()), "/"@);
    if relative.len() == 0 {
        workspace
    } else {
        workspace + "/"@ + relative
    }
}

/// The build directory as the container sees it. Its own separators are not
/// the container's, and `.` would leave a path no reader would recognise.
pub fn container_path(workspace: &str, directory: &str) -> (place: String)
    ensures
        place@ == container_place(workspace@, directory@),
{
    let names = path_names(directory);
    let ghost all = path::steps(directory@);
    let mut kept: Vec<String> = Vec::new();
    assert(text::views(kept@) == downward(all, 0));
    for i in 0..names.len()
        invariant
            text::views(names@) == all,
            text::views(kept@) == downward(all, i as nat),
    {
        assert(all[i as int] == names@[i as int]@);
        if !text::same(names[i].as_str(), "..") {
            let ghost before = kept@;
            let name = names[i].clone();
            kept.push(name);
            assert(text::views(kept@) == text::views(before).push(all[i as int]));
        }
    }
    assert(names@.len() == all.len());
    let relative = join(&kept, "/");
    if chars_of(relative.as_str()).len() == 0 {
        workspace.to_owned()
    } else {
        let mut place = cat(workspace, "/");
        place.append(relative.as_str());
        place
    }
}

/// A command to run, and the directory to run it in when that matters.
pub struct Invocation {
    pub program: String,
    pub arguments: Vec<String>,
    pub directory: Option<String>,
}

impl Invocation {
    /// The command as it is shown before it runs.
    pub fn line(&self) -> (line: String)
        ensures
            line@ == "$ "@ + self.program@ + " "@ + text::joined(
                text::views(self.arguments@),
                " "@,
            ),
    {
        let mut line = cat("$ ", self.program.as_str());
        line.append(" ");
        line.append(join(&self.arguments, " ").as_str());
        line
    }
}

/// The variables of a build as arguments to `docker run`.
pub open spec fn variable_arguments(variables: Seq<(String, String)>, count: nat) -> Seq<Seq<char>>
    decreases count,
{
    if count == 0 || count > variables.len() {
        Seq::empty()
    } else {
        variable_arguments(variables, (count - 1) as nat) + seq![
            "--env"@,
            variables[count - 1].0@ + "="@ + variables[count - 1].1@,
        ]
    }
}

/// An option and its value, where there is one.
pub open spec fn with_value(flag: Seq<char>, value: Option<String>) -> Seq<Seq<char>> {
    match value {
        Some(value) => seq![flag, value@],
        None => Seq::empty(),
    }
}

/// The arguments that run the build command in the toolchain image: the
/// project is mounted under the workspace, and what the build makes belongs
/// to the user who asked for it.
pub open spec fn container_arguments(
    config: Config,
    project_root: Seq<char>,
    user: Option<String>,
    workspace: Seq<char>,
    directory: Seq<char>,
    args: Seq<Seq<char>>,
) -> Seq<Seq<char>> {
    let build = config.build;
    seq!["run"@, "--rm"@] + with_value("--platform"@, build.docker.platform) + with_value(
        "--user"@,
        user,
    ) + seq!["--env"@, "HOME=/tmp"@] + variable_arguments(
        build.environment@,
        build.environment@.len(),
    ) + seq![
        "--volume"@,
        plain_path(project_root) + ":"@ + workspace,
        "--workdir"@,
        container_place(workspace, directory),
        build.docker.image@,
        build.program@,
    ] + args
}

fn add_value(list: &mut Vec<String>, flag: &str, value: &Option<String>)
    ensures
        text::views(final(list)@) == text::views(old(list)@) + with_value(flag@, *value),
{
    let ghost before = text::views(list@);
    if let Some(value) = value {
        push_text(list, flag);
        push_text(list, value.as_str());
    }
    assert(text::views(list@) == before + with_value(flag@, *value));
}

/// The arguments that run the build command in the toolchain image.
pub fn docker_arguments(
    config: &Config,
    project_root: &str,
    user: &Option<String>,
    workspace: &str,
    directory: &str,
    args: &Vec<String>,
) -> (arguments: Vec<String>)
    requires
        config.wf(),
    ensures
        text::views(arguments@) == container_arguments(
            *config,
            project_root@,
            *user,
            workspace@,
            directory@,
            text::views(args@),
        ),
{
    let build = &config.build;
    let mut arguments: Vec<String> = Vec::new();
    push_text(&mut arguments, "run");
    push_text(&mut arguments, "--rm");
    assert(text::views(arguments@) == seq!["run"@, "--rm"@]);
    add_value(&mut arguments, "--platform", &build.docker.platform);
    add_value(&mut arguments, "--user", user);
    let ghost before = text::views(arguments@);
    push_text(&mut arguments, "--env");
    push_text(&mut arguments, "HOME=/tmp");
    assert(text::views(arguments@) == before + seq!["--env"@, "HOME=/tmp"@]);
    let ghost start = text::views(arguments@);
    let ghost variables = build.environment@;
    assert(start + variable_arguments(variables, 0) == start);
    for i in 0..build.environment.len()
        invariant
            variables == build.environment@,
            text::views(arguments@) == start + variable_arguments(variables, i as nat),
    {
        let ghost now = text::views(arguments@);
        push_text(&mut arguments, "--env");
        let mut setting = cat(build.environment[i].0.as_str(), "=");
        setting.append(build.environment[i].1.as_str());
        push_text(&mut arguments, setting.as_str());
        assert(text::views(arguments@) == start + variable_arguments(variables, (i + 1) as nat));
    }
    let ghost now = text::views(arguments@);
    let mut volume = cat(docker_volume_source(project_root).as_str(), ":");
    volume.append(workspace);
    push_text(&mut arguments, "--volume");
    push_text(&mut arguments, volume.as_str());
    push_text(&mut arguments, "--workdir");
    push_text(&mut arguments, container_path(workspace, directory).as_str());
    push_text(&mut arguments, build.docker.image.as_str());
    push_text(&mut arguments, build.program.as_str());
    assert(text::views(arguments@) == now + seq![
        "--volume"@,
        plain_path(project_root@) + ":"@ + workspace@,
        "--workdir"@,
        container_place(workspace@, directory@),
        build.docker.image@,
        build.program@,
    ]);
    push_all(&mut arguments, args);
    arguments
}

/// The name of the directory that a project is built in.
pub open spec fn build_name(config: Config, project_root: Seq<char>) -> Option<Seq<char>> {
    path::last_name(config::build_place(config, project_root))
}

/// The name of the directory that a project is built in.
pub fn build_directory_name(config: &Config, project_root: &str) -> (name: Result<String, String>)
    ensures
        match build_name(*config, project_root@) {
            Some(found) => name matches Ok(name) && name@ == found,
            None => name matches Err(words) && words@
                == "cannot determine project directory name"@,
        },
{
    match file_name(config.build_directory(project_root).as_str()) {
        Some(name) => Ok(name),
        None => Err("cannot determine project directory name".to_owned()),
    }
}

/// Those that lead down keep the last name, where it leads down.
proof fn lemma_downward(names: Seq<Seq<char>>, count: nat)
    requires
        count <= names.len(),
        path::all_steps(names),
    ensures
        path::all_steps(downward(names, count)),
        count > 0 && names[count - 1] != ".."@ ==> downward(names, count).len() > 0 && downward(
            names,
            count,
        ).last() == names[count - 1],
        downward(names, count).len() > 0 ==> count > 0,
    decreases count,
{
    if count > 0 {
        lemma_downward(names, (count - 1) as nat);
        assert(path::names(names[count - 1]) && !names[count - 1].contains('/'));
    }
}

/// A project is built under one name: the directory that the build runs in
/// ends with the same name in the container as it does on this computer.
pub proof fn a_build_directory_keeps_its_name(config: Config, project_root: Seq<char>)
    requires
        build_name(config, project_root) is Some,
    ensures
        path::last_name(
            container_place(
                "/workspace/"@ + build_name(config, project_root)->Some_0,
                config.build.working_directory@,
            ),
        ) == build_name(config, project_root),
{
    reveal_strlit("/");
    reveal_strlit("/workspace/");
    reveal_strlit("/workspace");
    let directory = config.build.working_directory@;
    let whole = path::below(project_root, directory);
    let name = build_name(config, project_root)->Some_0;
    path::a_tidy_path_leads_the_same_way(whole);
    path::a_path_below_continues_the_other(project_root, directory);
    path::lemma_steps(whole);
    path::lemma_steps(directory);
    let steps = path::steps(directory);
    let down = downward(steps, steps.len());
    lemma_downward(steps, steps.len());
    assert(path::steps(whole).last() == name);

    let one = seq![name];
    assert(path::all_steps(one));
    path::joined_names_are_the_steps(one);
    assert(text::joined(one, "/"@) == name);
    let mount = "/workspace/"@ + name;
    assert(mount == path::below("/workspace"@, name)) by {
        assert(!path::absolute(name)) by {
            if path::absolute(name) {
                assert(name.contains('/'));
            }
        }
        assert("/workspace"@ + "/"@ == "/workspace/"@);
    }
    path::a_path_below_continues_the_other("/workspace"@, name);
    assert(path::steps(mount).last() == name);

    let relative = text::joined(down, "/"@);
    path::joined_names_are_the_steps(down);
    if relative.len() == 0 {
        if down.len() > 0 {
            path::lemma_joined_start(down);
        }
        assert(steps.len() == 0);
    } else {
        assert(down.len() > 0);
        path::lemma_joined_start(down);
        let place = mount + "/"@ + relative;
        assert(place == path::below(mount, relative)) by {
            assert(mount.last() == name.last());
            assert(path::names(name));
            if name.last() == '/' {
                assert(name.contains('/'));
            }
        }
        path::a_path_below_continues_the_other(mount, relative);
        assert(path::steps(place).last() == down.last());
    }
}

/// Where the project is mounted inside the container, when Docker is used.
/// Keeping its own directory name means a Makefile that names its output
/// after the directory it builds in produces the same file in Docker as it
/// does on this computer.
pub fn workspace(config: &Config, project_root: &str) -> (place: Result<Option<String>, String>)
    ensures
        match (config.build.toolchain, build_name(*config, project_root@)) {
            (Toolchain::Host, _) => place == Ok::<Option<String>, String>(None),
            (Toolchain::Docker, Some(name)) => place matches Ok(Some(place)) && place@
                == "/workspace/"@ + name,
            (Toolchain::Docker, None) => place matches Err(words) && words@
                == "cannot determine project directory name"@,
        },
{
    match config.build.toolchain {
        Toolchain::Docker => match build_directory_name(config, project_root) {
            Ok(name) => Ok(Some(cat("/workspace/", name.as_str()))),
            Err(words) => Err(words),
        },
        Toolchain::Host => Ok(None),
    }
}

/// Whether a project links against the m68k libraries. A firmware has nothing
/// to link against: it is what the libraries would have been calling.
pub open spec fn uses_libraries(config: Config) -> bool {
    config.project.board == Board::RoscoM68k && config.project.kind == ProjectKind::Program
}

/// How far a build has come.
#[derive(Clone, Copy, Debug, PartialEq, Eq, Structural)]
pub enum BuildStage {
    Prepared,
    Cleaned,
    LibrariesReady,
    Built,
}

/// What a build does next.
pub enum BuildStep {
    /// Run a command; if it fails, that is said of it.
    Run { command: Invocation, failure: &'static str },
    /// See that this file is there.
    Expect(String),
}

/// Whether a command runs the builder in a directory of the project, with
/// these arguments, in the container or on this computer.
pub open spec fn runs(
    command: Invocation,
    config: Config,
    project_root: Seq<char>,
    user: Option<String>,
    workspace: Option<String>,
    directory: Seq<char>,
    args: Seq<Seq<char>>,
) -> bool {
    match workspace {
        Some(workspace) => {
            &&& command.program@ == "docker"@
            &&& text::views(command.arguments@) == container_arguments(
                config,
                project_root,
                user,
                workspace@,
                directory,
                args,
            )
            &&& command.directory is None
        },
        None => {
            &&& command.program@ == config.build.program@
            &&& text::views(command.arguments@) == args
            &&& config::optional(command.directory) == Some(path::below(project_root, directory))
        },
    }
}

fn invocation(
    config: &Config,
    project_root: &str,
    user: &Option<String>,
    workspace: &Option<String>,
    directory: &str,
    args: Vec<String>,
) -> (command: Invocation)
    requires
        config.wf(),
    ensures
        runs(
            command,
            *config,
            project_root@,
            *user,
            *workspace,
            directory@,
            text::views(args@),
        ),
{
    match workspace {
        Some(workspace) => Invocation {
            program: "docker".to_owned(),
            arguments: docker_arguments(
                config,
                project_root,
                user,
                workspace.as_str(),
                directory,
                &args,
            ),
            directory: None,
        },
        None => Invocation {
            program: config.build.program.clone(),
            arguments: args,
            directory: Some(join_path(project_root, directory)),
        },
    }
}

/// The arguments of the build itself. The m68k makefile names its output after
/// the directory it builds in, and is told so out loud.
pub open spec fn build_arguments(config: Config, project_root: Seq<char>) -> Seq<Seq<char>> {
    if uses_libraries(config) {
        text::views(config.build.args@).push(
            "PROGRAM_BASENAME="@ + build_name(config, project_root)->Some_0,
        )
    } else {
        text::views(config.build.args@)
    }
}

/// What a build does next: it is cleaned if that was asked for, the libraries
/// are installed where they are used and not there yet, the builder runs, and
/// then the artifact has to be there.
pub fn next_step(
    stage: BuildStage,
    config: &Config,
    project_root: &str,
    user: &Option<String>,
    workspace: &Option<String>,
    clean: bool,
    libraries_ready: bool,
) -> (next: Result<(BuildStage, BuildStep), String>)
    requires
        config.wf(),
    ensures
        if stage == BuildStage::Prepared && clean {
            next matches Ok((after, BuildStep::Run { command, failure })) && {
                &&& after == BuildStage::Cleaned
                &&& failure@ == "clean command failed"@
                &&& runs(
                    command,
                    *config,
                    project_root@,
                    *user,
                    *workspace,
                    config.build.working_directory@,
                    text::views(config.build.clean_args@),
                )
            }
        } else if (stage == BuildStage::Prepared || stage == BuildStage::Cleaned)
            && uses_libraries(*config) && !libraries_ready {
            next matches Ok((after, BuildStep::Run { command, failure })) && {
                &&& after == BuildStage::LibrariesReady
                &&& failure@ == "library installation failed"@
                &&& runs(
                    command,
                    *config,
                    project_root@,
                    *user,
                    *workspace,
                    "."@,
                    seq!["-C"@, "libs"@, "install"@],
                )
            }
        } else if stage != BuildStage::Built {
            if uses_libraries(*config) && build_name(*config, project_root@) is None {
                next matches Err(words) && words@ == "cannot determine project directory name"@
            } else {
                next matches Ok((after, BuildStep::Run { command, failure })) && {
                    &&& after == BuildStage::Built
                    &&& failure@ == "build command failed"@
                    &&& runs(
                        command,
                        *config,
                        project_root@,
                        *user,
                        *workspace,
                        config.build.working_directory@,
                        build_arguments(*config, project_root@),
                    )
                }
            }
        } else {
            match config::artifact_place(*config, project_root@) {
                Some(place) => next matches Ok((after, BuildStep::Expect(file))) && after
                    == BuildStage::Built && file@ == place,
                None => next matches Err(words) && words@
                    == "cannot infer artifact name; set project.artifact in rosco.toml"@,
            }
        },
{
    let directory = config.build.working_directory.as_str();
    if stage == BuildStage::Prepared && clean {
        let mut args: Vec<String> = Vec::new();
        assert(text::views(args@) == Seq::<Seq<char>>::empty());
        push_all(&mut args, &config.build.clean_args);
        assert(text::views(args@) == text::views(config.build.clean_args@));
        let command = invocation(config, project_root, user, workspace, directory, args);
        let failure = "clean command failed";
        return Ok((BuildStage::Cleaned, BuildStep::Run { command, failure }));
    }
    let libraries: bool = config.project.board == Board::RoscoM68k && config.project.kind
        == ProjectKind::Program;
    if (stage == BuildStage::Prepared || stage == BuildStage::Cleaned) && libraries
        && !libraries_ready {
        let mut args: Vec<String> = Vec::new();
        push_text(&mut args, "-C");
        push_text(&mut args, "libs");
        push_text(&mut args, "install");
        assert(text::views(args@) == seq!["-C"@, "libs"@, "install"@]);
        let command = invocation(config, project_root, user, workspace, ".", args);
        let failure = "library installation failed";
        return Ok((BuildStage::LibrariesReady, BuildStep::Run { command, failure }));
    }
    if stage != BuildStage::Built {
        let mut args: Vec<String> = Vec::new();
        assert(text::views(args@) == Seq::<Seq<char>>::empty());
        push_all(&mut args, &config.build.args);
        assert(text::views(args@) == text::views(config.build.args@));
        if libraries {
            match build_directory_name(config, project_root) {
                Ok(name) => {
                    push_text(&mut args, cat("PROGRAM_BASENAME=", name.as_str()).as_str());
                },
                Err(words) => {
                    return Err(words);
                },
            }
        }
        let command = invocation(config, project_root, user, workspace, directory, args);
        let failure = "build command failed";
        return Ok((BuildStage::Built, BuildStep::Run { command, failure }));
    }
    match config.artifact_path(project_root) {
        Ok(file) => Ok((BuildStage::Built, BuildStep::Expect(file))),
        Err(words) => Err(words),
    }
}

/// Whether an option is among some arguments, with this value behind it.
pub open spec fn gives(arguments: Seq<Seq<char>>, flag: Seq<char>, value: Seq<char>) -> bool {
    exists|i: int|
        0 <= i < arguments.len() - 1 && #[trigger] arguments[i] == flag && arguments[i + 1] == value
}

/// What a build step hands to the builder, by how far it brings the build:
/// what cleans, what installs the libraries, or what builds. A program for the
/// m68k board is told the name of the directory it is built in.
pub open spec fn handed_on(after: BuildStage, config: Config, project_root: Seq<char>) -> Seq<
    Seq<char>,
> {
    let args = text::views(config.build.args@);
    let directory = path::below(project_root, config.build.working_directory@);
    match after {
        BuildStage::Cleaned => text::views(config.build.clean_args@),
        BuildStage::LibrariesReady => seq!["-C"@, "libs"@, "install"@],
        _ => if config.project.board == Board::RoscoM68k && config.project.kind
            == ProjectKind::Program {
            args.push("PROGRAM_BASENAME="@ + path::steps(directory).last())
        } else {
            args
        },
    }
}

/// The steps that lead to where a build step runs: the project itself for the
/// libraries, and the directory it is built in for everything else.
pub open spec fn led_to(after: BuildStage, config: Config, project_root: Seq<char>) -> Seq<
    Seq<char>,
> {
    let directory = config.build.working_directory@;
    if after == BuildStage::LibrariesReady {
        path::steps(project_root)
    } else if path::absolute(directory) {
        path::steps(directory)
    } else {
        path::steps(project_root) + path::steps(directory)
    }
}

proof fn lemma_handed_on(config: Config, project_root: Seq<char>)
    requires
        uses_libraries(config) ==> build_name(config, project_root) is Some,
    ensures
        build_arguments(config, project_root) == handed_on(
            BuildStage::Built,
            config,
            project_root,
        ),
{
    path::a_tidy_path_leads_the_same_way(
        path::below(project_root, config.build.working_directory@),
    );
}

/// A path below another by way of a full stop leads where that one does.
proof fn lemma_here(base: Seq<char>)
    ensures
        path::steps(path::below(base, "."@)) == path::steps(base),
{
    reveal_strlit(".");
    path::a_path_below_continues_the_other(base, "."@);
    path::lemma_full_stop();
    assert(path::steps(base) + Seq::<Seq<char>>::empty() == path::steps(base));
}

/// A build on this computer runs the builder itself, in the directory that the
/// project is built in: the one that its working directory leads to from the
/// project, and that the artifact is looked for in. The libraries are
/// installed from the project.
pub proof fn a_build_here_runs_where_the_project_is_built(
    stage: BuildStage,
    config: &Config,
    project_root: &str,
    user: &Option<String>,
    clean: bool,
    ready: bool,
    after: BuildStage,
    command: Invocation,
    failure: &'static str,
)
    requires
        call_ensures(
            next_step,
            (stage, config, project_root, user, &None::<String>, clean, ready),
            Ok::<(BuildStage, BuildStep), String>(
                (after, BuildStep::Run { command, failure }),
            ),
        ),
    ensures
        command.program@ == config.build.program@,
        text::views(command.arguments@) == handed_on(after, *config, project_root@),
        command.directory matches Some(directory) && {
            &&& path::steps(directory@) == led_to(after, *config, project_root@)
            &&& after != BuildStage::LibrariesReady ==> path::tidy(directory@)
                == config::build_place(*config, project_root@)
        },
{
    path::a_path_below_continues_the_other(project_root@, config.build.working_directory@);
    lemma_here(project_root@);
    if after == BuildStage::Built {
        lemma_handed_on(*config, project_root@);
    }
}

/// A build in the toolchain image runs Docker with the image, the builder and
/// what it is handed at the end. The project is mounted in the workspace, the
/// builder runs in the directory below it that the project is built in, what
/// it makes belongs to the user, and it gets every variable.
pub proof fn a_build_in_the_image_is_told_everything(
    stage: BuildStage,
    config: &Config,
    project_root: &str,
    user: &Option<String>,
    workspace: String,
    clean: bool,
    ready: bool,
    after: BuildStage,
    command: Invocation,
    failure: &'static str,
)
    requires
        call_ensures(
            next_step,
            (stage, config, project_root, user, &Some(workspace), clean, ready),
            Ok::<(BuildStage, BuildStep), String>(
                (after, BuildStep::Run { command, failure }),
            ),
        ),
    ensures
        command.program@ == "docker"@,
        command.directory is None,
        ({
            let arguments = text::views(command.arguments@);
            let handed = seq![config.build.docker.image@, config.build.program@] + handed_on(
                after,
                *config,
                project_root@,
            );
            let directory = if after == BuildStage::LibrariesReady {
                "."@
            } else {
                config.build.working_directory@
            };
            &&& arguments.len() >= handed.len() + 2
            &&& arguments.skip(arguments.len() - handed.len()) == handed
            &&& arguments[0] == "run"@
            &&& arguments[1] == "--rm"@
            &&& gives(
                arguments,
                "--volume"@,
                plain_path(project_root@) + ":"@ + workspace@,
            )
            &&& gives(arguments, "--workdir"@, container_place(workspace@, directory))
            &&& gives(arguments, "--env"@, "HOME=/tmp"@)
            &&& user matches Some(user) ==> gives(arguments, "--user"@, user@)
            &&& config.build.docker.platform matches Some(platform) ==> gives(
                arguments,
                "--platform"@,
                platform@,
            )
            &&& forall|i: int|
                0 <= i < config.build.environment@.len() ==> gives(
                    arguments,
                    "--env"@,
                    (#[trigger] config.build.environment@[i]).0@ + "="@
                        + config.build.environment@[i].1@,
                )
        }),
{
    let directory = if after == BuildStage::LibrariesReady {
        "."@
    } else {
        config.build.working_directory@
    };
    if after == BuildStage::Built {
        lemma_handed_on(*config, project_root@);
    }
    let args = handed_on(after, *config, project_root@);
    assert(text::views(command.arguments@) == container_arguments(
        *config,
        project_root@,
        *user,
        workspace@,
        directory,
        args,
    ));
    lemma_container(*config, project_root@, *user, workspace@, directory, args);
}

proof fn lemma_variable_count(variables: Seq<(String, String)>, count: nat)
    requires
        count <= variables.len(),
    ensures
        variable_arguments(variables, count).len() == 2 * count,
    decreases count,
{
    if count > 0 {
        lemma_variable_count(variables, (count - 1) as nat);
    }
}

proof fn lemma_variable(variables: Seq<(String, String)>, count: nat, at: int)
    requires
        0 <= at < count <= variables.len(),
    ensures
        variable_arguments(variables, count).len() == 2 * count,
        variable_arguments(variables, count)[2 * at] == "--env"@,
        variable_arguments(variables, count)[2 * at + 1] == variables[at].0@ + "="@
            + variables[at].1@,
    decreases count,
{
    let before = variable_arguments(variables, (count - 1) as nat);
    let pair = seq!["--env"@, variables[count - 1].0@ + "="@ + variables[count - 1].1@];
    lemma_variable_count(variables, (count - 1) as nat);
    assert(variable_arguments(variables, count) == before + pair);
    if at < count - 1 {
        lemma_variable(variables, (count - 1) as nat, at);
    } else {
        assert((before + pair)[2 * at] == pair[0]);
        assert((before + pair)[2 * at + 1] == pair[1]);
    }
}

proof fn lemma_container(
    config: Config,
    project_root: Seq<char>,
    user: Option<String>,
    workspace: Seq<char>,
    directory: Seq<char>,
    args: Seq<Seq<char>>,
)
    ensures
        ({
            let arguments = container_arguments(
                config,
                project_root,
                user,
                workspace,
                directory,
                args,
            );
            let handed = seq![config.build.docker.image@, config.build.program@] + args;
            &&& arguments.len() >= handed.len() + 2
            &&& arguments.skip(arguments.len() - handed.len()) == handed
            &&& arguments[0] == "run"@
            &&& arguments[1] == "--rm"@
            &&& gives(arguments, "--volume"@, plain_path(project_root) + ":"@ + workspace)
            &&& gives(arguments, "--workdir"@, container_place(workspace, directory))
            &&& gives(arguments, "--env"@, "HOME=/tmp"@)
            &&& user matches Some(user) ==> gives(arguments, "--user"@, user@)
            &&& config.build.docker.platform matches Some(platform) ==> gives(
                arguments,
                "--platform"@,
                platform@,
            )
            &&& forall|i: int|
                0 <= i < config.build.environment@.len() ==> gives(
                    arguments,
                    "--env"@,
                    (#[trigger] config.build.environment@[i]).0@ + "="@
                        + config.build.environment@[i].1@,
                )
        }),
{
    let build = config.build;
    let list = container_arguments(config, project_root, user, workspace, directory, args);
    let platform = with_value("--platform"@, build.docker.platform);
    let users = with_value("--user"@, user);
    let variables = variable_arguments(build.environment@, build.environment@.len());
    lemma_variable_count(build.environment@, build.environment@.len());
    let a: int = 2 + platform.len() as int;
    let b: int = a + users.len();
    let c: int = b + 2;
    let d: int = c + variables.len();
    assert(list.len() == d + 6 + args.len());
    if build.docker.platform is Some {
        assert(list[2] == "--platform"@ && list[3] == platform[1]);
    }
    if user is Some {
        assert(list[a] == "--user"@ && list[a + 1] == users[1]);
    }
    assert(list[b] == "--env"@ && list[b + 1] == "HOME=/tmp"@);
    assert forall|i: int| 0 <= i < build.environment@.len() implies gives(
        list,
        "--env"@,
        (#[trigger] build.environment@[i]).0@ + "="@ + build.environment@[i].1@,
    ) by {
        lemma_variable(build.environment@, build.environment@.len(), i);
        assert(list[c + 2 * i] == variables[2 * i]);
        assert(list[c + 2 * i + 1] == variables[2 * i + 1]);
    }
    assert(list[d] == "--volume"@ && list[d + 1] == plain_path(project_root) + ":"@
        + workspace);
    assert(list[d + 2] == "--workdir"@ && list[d + 3] == container_place(workspace, directory));
    assert(list.skip(list.len() - (2 + args.len())) =~= seq![
        build.docker.image@,
        build.program@,
    ] + args);
}

/// Where the container builds is below the workspace what the working
/// directory is below the project, as long as that leads only down.
pub proof fn a_container_builds_below_its_workspace(workspace: Seq<char>, directory: Seq<char>)
    requires
        path::absolute(workspace),
        workspace.last() != '/',
        !path::steps(directory).contains(".."@),
    ensures
        path::steps(container_place(workspace, directory)) == path::steps(workspace)
            + path::steps(directory),
        path::absolute(container_place(workspace, directory)),
{
    reveal_strlit("/");
    let names = path::steps(directory);
    lemma_only_down(names, names.len());
    assert(names.take(names.len() as int) == names);
    path::lemma_steps(directory);
    path::joined_names_are_the_steps(names);
    let relative = text::joined(names, "/"@);
    if names.len() > 0 {
        path::lemma_joined_start(names);
        path::a_path_below_continues_the_other(workspace, relative);
        assert(path::below(workspace, relative) == workspace + "/"@ + relative);
    } else {
        assert(relative.len() == 0);
        assert(path::steps(workspace) + names == path::steps(workspace));
    }
}

proof fn lemma_only_down(names: Seq<Seq<char>>, count: nat)
    requires
        count <= names.len(),
        !names.contains(".."@),
    ensures
        downward(names, count) == names.take(count as int),
    decreases count,
{
    if count > 0 {
        lemma_only_down(names, (count - 1) as nat);
        assert(names.contains(names[count - 1]));
        assert(names.take((count - 1) as int).push(names[count - 1]) == names.take(count as int));
    }
}

/// What a build makes is in the directory that it runs in, under the name of
/// that directory, with the ending of a binary or of a ROM image.
pub proof fn an_artifact_lies_where_the_project_is_built(
    config: &Config,
    project_root: &str,
    file: String,
)
    requires
        call_ensures(Config::artifact_path, (config, project_root), Ok::<String, String>(file)),
        config.project.artifact is None,
    ensures
        ({
            let directory = path::below(project_root@, config.build.working_directory@);
            let names = path::steps(directory);
            &&& names.len() > 0
            &&& path::steps(file@) == names.push(
                names.last() + (if config.project.kind == ProjectKind::Firmware {
                    ".rom"@
                } else {
                    ".bin"@
                }),
            )
            &&& path::absolute(file@) == path::absolute(directory)
        }),
{
    let directory = path::below(project_root@, config.build.working_directory@);
    let place = config::build_place(*config, project_root@);
    path::a_tidy_path_leads_the_same_way(directory);
    path::lemma_steps(directory);
    let name = path::steps(directory).last();
    let ending = config::artifact_ending(config.project.kind);
    reveal_strlit(".rom");
    reveal_strlit(".bin");
    reveal_strlit("..");
    reveal_strlit(".");
    assert(path::names(name) && !name.contains('/'));
    let whole = name + ending;
    assert(path::all_steps(seq![whole])) by {
        assert forall|i: int| 0 <= i < whole.len() implies whole[i] != '/' by {
            if i < name.len() {
                assert(name.contains(name[i]));
            }
        }
    }
    path::lemma_file_in(place, whole);
}

/// What is said of a build that did not make what it should have.
pub fn no_artifact(artifact: &str) -> (message: String)
    ensures
        message@ == "build succeeded but artifact was not found at "@ + artifact@
            + "; set project.artifact in rosco.toml"@,
{
    let mut message = cat("build succeeded but artifact was not found at ", artifact);
    message.append("; set project.artifact in rosco.toml");
    message
}

/// What asking Docker for itself told us.
pub enum Probe {
    Ready,
    Missing,
    /// It is there and would not answer, in its own words.
    Refused(String),
}

/// The lines of a text that say something, without the space around them,
/// among the first `count`.
pub open spec fn telling(lines: Seq<Seq<char>>, count: nat) -> Seq<Seq<char>>
    decreases count,
{
    if count == 0 || count > lines.len() {
        Seq::empty()
    } else {
        let before = telling(lines, (count - 1) as nat);
        let line = text::trimmed(lines[count - 1]);
        if line.len() > 0 {
            before.push(line)
        } else {
            before
        }
    }
}

/// Whether a line looks like the reason Docker would not answer.
pub open spec fn complains(line: Seq<char>) -> bool {
    ||| "ERROR:"@.is_prefix_of(line)
    ||| text::occurs(line, "connect"@)
    ||| text::occurs(line, "denied"@)
}

/// The first line that complains, from a place on; or the first line of all.
pub open spec fn first_complaint(lines: Seq<Seq<char>>, from: nat) -> Seq<char>
    decreases lines.len() - from,
{
    if from >= lines.len() {
        lines[0]
    } else if complains(lines[from as int]) {
        lines[from as int]
    } else {
        first_complaint(lines, from + 1)
    }
}

/// A line without the word that marks it as an error.
pub open spec fn unmarked(line: Seq<char>) -> Seq<char>
    decreases line.len(),
{
    if line.len() > 0 && "ERROR:"@.len() > 0 && "ERROR:"@.is_prefix_of(line) {
        unmarked(line.skip("ERROR:"@.len() as int))
    } else {
        line
    }
}

/// Why Docker would not answer, by what it printed.
pub open spec fn docker_complaint(stderr: Seq<char>) -> Seq<char> {
    let lines = text::line_list(stderr);
    let said = telling(lines, lines.len());
    if said.len() == 0 {
        "docker info failed"@
    } else {
        text::trimmed(unmarked(first_complaint(said, 0)))
    }
}

fn unmark(line: &str) -> (rest: String)
    ensures
        rest@ == unmarked(line@),
    decreases line@.len(),
{
    proof {
        reveal_strlit("ERROR:");
    }
    match strip_prefix(line, "ERROR:") {
        Some(rest) => unmark(rest.as_str()),
        None => line.to_owned(),
    }
}

/// Why Docker would not answer, by what it printed.
pub fn complaint(stderr: &str) -> (words: String)
    ensures
        words@ == docker_complaint(stderr@),
{
    let all = lines(stderr);
    let ghost read = text::line_list(stderr@);
    let mut said: Vec<String> = Vec::new();
    assert(text::views(said@) == telling(read, 0));
    for i in 0..all.len()
        invariant
            text::views(all@) == read,
            text::views(said@) == telling(read, i as nat),
    {
        assert(read[i as int] == all@[i as int]@);
        let line = trim(all[i].as_str());
        if chars_of(line.as_str()).len() > 0 {
            push_text(&mut said, line.as_str());
        }
    }
    assert(all@.len() == read.len());
    let ghost heard = telling(read, read.len());
    assert(said@.len() == heard.len());
    if said.len() == 0 {
        return "docker info failed".to_owned();
    }
    let mut at: usize = 0;
    while at < said.len()
        invariant_except_break
            first_complaint(heard, 0) == first_complaint(heard, at as nat),
        invariant
            text::views(said@) == heard,
            said@.len() == heard.len(),
            at <= said@.len(),
        ensures
            first_complaint(heard, 0) == heard[if at < said@.len() {
                at as int
            } else {
                0
            }],
        decreases said@.len() - at,
    {
        assert(heard[at as int] == said@[at as int]@);
        if starts_with(said[at].as_str(), "ERROR:") || contains(said[at].as_str(), "connect")
            || contains(said[at].as_str(), "denied") {
            break ;
        }
        at = at + 1;
    }
    if at == said.len() {
        at = 0;
    }
    assert(heard[at as int] == said@[at as int]@);
    trim(unmark(said[at].as_str()).as_str())
}

/// Docker is installed but would not answer. Its own words say why far better
/// than a guess would, so they are quoted and only the remedy is added.
pub open spec fn refusal_words(stderr: Seq<char>) -> Seq<char> {
    if text::occurs(stderr, "permission denied"@) {
        "docker is installed but this user cannot reach its daemon."@ + "\n  docker: "@
            + docker_complaint(stderr) + "\n  "@
            + "Add yourself to the docker group with `sudo usermod -aG docker $USER`, then log in again."@
    } else {
        "docker is installed but its daemon is not answering."@ + "\n  docker: "@
            + docker_complaint(stderr) + "\n  "@
            + "Start Docker Desktop, or `sudo systemctl start docker` on Linux."@
    }
}

/// What is said of a Docker that is installed but would not answer.
pub fn refusal_message(stderr: &str) -> (message: String)
    ensures
        message@ == refusal_words(stderr@),
{
    let denied: bool = contains(stderr, "permission denied");
    let mut message = if denied {
        "docker is installed but this user cannot reach its daemon.".to_owned()
    } else {
        "docker is installed but its daemon is not answering.".to_owned()
    };
    message.append("\n  docker: ");
    message.append(complaint(stderr).as_str());
    message.append("\n  ");
    if denied {
        message.append(
            "Add yourself to the docker group with `sudo usermod -aG docker $USER`, then log in again.",
        );
    } else {
        message.append("Start Docker Desktop, or `sudo systemctl start docker` on Linux.");
    }
    message
}

/// What is said where there is no Docker at all.
pub open spec fn no_docker() -> Seq<char> {
    "docker is not installed, or is not on PATH.\n  The toolchain runs in a container, so a build needs it: install Docker Desktop or Docker Engine, or build with the compilers on this computer with `rosco build --host`."@
}

/// Checked before the first container starts, so a missing or stopped Docker
/// is one clear sentence instead of a failed `docker run`.
pub fn ensure_docker_available(probe: &Probe) -> (ready: Result<(), String>)
    ensures
        match probe {
            Probe::Ready => ready is Ok,
            Probe::Missing => ready matches Err(words) && words@ == no_docker(),
            Probe::Refused(stderr) => ready matches Err(words) && words@ == refusal_words(stderr@),
        },
{
    match probe {
        Probe::Ready => Ok(()),
        Probe::Missing => Err(
            "docker is not installed, or is not on PATH.\n  The toolchain runs in a container, so a build needs it: install Docker Desktop or Docker Engine, or build with the compilers on this computer with `rosco build --host`.".to_owned(),
        ),
        Probe::Refused(stderr) => Err(refusal_message(stderr.as_str())),
    }
}

/// The commands of a list of tools.
pub open spec fn commands(tools: Seq<Tool>) -> Seq<Seq<char>> {
    Seq::new(tools.len(), |i: int| tools[i].command@)
}

/// What is said of a toolchain that is not all there.
pub open spec fn toolchain_words(board: Board, missing: Seq<Tool>, hint: Option<String>) -> Seq<
    char,
> {
    "the "@ + config::board_word(board) + " toolchain is not on PATH: "@ + text::joined(
        commands(missing),
        ", "@,
    ) + (if missing.len() == 1 {
        " is"@
    } else {
        " are"@
    }) + " missing."@ + (match hint {
        Some(hint) => "\n  Install it with `"@ + hint@ + "`."@,
        None => Seq::empty(),
    })
        + "\n  Or build in the toolchain image instead, with `rosco build --docker` or `rosco config set build.toolchain docker`."@
}

/// The commands of a list of tools.
pub fn command_names(tools: &Vec<Tool>) -> (names: Vec<String>)
    ensures
        text::views(names@) == commands(tools@),
{
    let mut names: Vec<String> = Vec::new();
    for i in 0..tools.len()
        invariant
            text::views(names@) == commands(tools@).take(i as int),
    {
        push_text(&mut names, tools[i].command);
        assert(text::views(names@) == commands(tools@).take(i + 1));
    }
    assert(commands(tools@).take(tools@.len() as int) == commands(tools@));
    names
}

/// Checked before a build that runs here: everything that is missing is named
/// at once, and what installs it.
pub fn ensure_host_toolchain(board: Board, missing: &Vec<Tool>, hint: &Option<String>) -> (ready:
    Result<(), String>)
    ensures
        missing@.len() == 0 ==> ready is Ok,
        missing@.len() > 0 ==> (ready matches Err(words) && words@ == toolchain_words(
            board,
            missing@,
            *hint,
        )),
{
    if missing.len() == 0 {
        return Ok(());
    }
    let names = command_names(missing);
    let mut message = cat("the ", board.label());
    message.append(" toolchain is not on PATH: ");
    message.append(join(&names, ", ").as_str());
    if missing.len() == 1 {
        message.append(" is");
    } else {
        message.append(" are");
    }
    message.append(" missing.");
    if let Some(hint) = hint {
        message.append("\n  Install it with `");
        message.append(hint.as_str());
        message.append("`.");
    }
    message.append(
        "\n  Or build in the toolchain image instead, with `rosco build --docker` or `rosco config set build.toolchain docker`.",
    );
    assert(message@ == toolchain_words(board, missing@, *hint));
    Err(message)
}

/// How far a stage is from the start of a build.
pub open spec fn distance(stage: BuildStage) -> nat {
    match stage {
        BuildStage::Prepared => 0,
        BuildStage::Cleaned => 1,
        BuildStage::LibrariesReady => 2,
        BuildStage::Built => 3,
    }
}

/// A build cleans first, where it was asked to and only there. It installs the
/// libraries only for an m68k program that does not have them yet, builds once,
/// and then looks for what was built. Every command brings it nearer to that.
pub proof fn a_build_does_what_it_has_to_and_ends(
    stage: BuildStage,
    config: &Config,
    project_root: &str,
    user: &Option<String>,
    workspace: &Option<String>,
    clean: bool,
    ready: bool,
    after: BuildStage,
    step: BuildStep,
)
    requires
        call_ensures(
            next_step,
            (stage, config, project_root, user, workspace, clean, ready),
            Ok::<(BuildStage, BuildStep), String>((after, step)),
        ),
    ensures
        step is Expect <==> stage == BuildStage::Built,
        step is Expect ==> after == stage,
        step is Run ==> distance(after) > distance(stage),
        step is Run ==> (after == BuildStage::Cleaned <==> stage == BuildStage::Prepared && clean),
        after == BuildStage::LibrariesReady ==> config.project.board == Board::RoscoM68k
            && config.project.kind == ProjectKind::Program && !ready,
        config.project.board == Board::RoscoM68k && config.project.kind == ProjectKind::Program
            && !ready && distance(stage) < 2 ==> after != BuildStage::Built,
        step matches BuildStep::Run { failure, .. } ==> failure@ == (match after {
            BuildStage::Cleaned => "clean command failed"@,
            BuildStage::LibrariesReady => "library installation failed"@,
            _ => "build command failed"@,
        }),
{
}

/// What is built is looked for where it is loaded and sent from.
pub proof fn what_is_built_is_what_is_loaded(
    config: &Config,
    project_root: &str,
    user: &Option<String>,
    workspace: &Option<String>,
    clean: bool,
    ready: bool,
    next: Result<(BuildStage, BuildStep), String>,
    file: Result<String, String>,
)
    requires
        call_ensures(
            next_step,
            (BuildStage::Built, config, project_root, user, workspace, clean, ready),
            next,
        ),
        call_ensures(Config::artifact_path, (config, project_root), file),
    ensures
        file is Ok <==> next is Ok,
        next matches Ok((_, step)) ==> (step matches BuildStep::Expect(expected) && expected@
            == file->Ok_0@),
{
}

/// Whether a line of what Docker printed looks like the reason.
pub open spec fn is_reason(line: Seq<char>) -> bool {
    text::trimmed(line).len() > 0 && complains(text::trimmed(line))
}

proof fn lemma_first_complaint(lines: Seq<Seq<char>>, from: nat, at: int)
    requires
        from <= at < lines.len(),
        complains(lines[at]),
        forall|i: int| from <= i < at ==> !complains(#[trigger] lines[i]),
    ensures
        first_complaint(lines, from) == lines[at],
    decreases at - from,
{
    if from < at {
        lemma_first_complaint(lines, from + 1, at);
    }
}

proof fn lemma_no_complaint(lines: Seq<Seq<char>>, from: nat)
    requires
        from <= lines.len(),
        forall|i: int| from <= i < lines.len() ==> !complains(#[trigger] lines[i]),
    ensures
        first_complaint(lines, from) == lines[0],
    decreases lines.len() - from,
{
    if from < lines.len() {
        lemma_no_complaint(lines, from + 1);
    }
}

proof fn lemma_none_telling(lines: Seq<Seq<char>>, count: nat)
    requires
        count <= lines.len(),
        forall|i: int| 0 <= i < count ==> !is_reason(#[trigger] lines[i]),
    ensures
        forall|i: int|
            0 <= i < telling(lines, count).len() ==> !complains(
                #[trigger] telling(lines, count)[i],
            ),
    decreases count,
{
    if count > 0 {
        lemma_none_telling(lines, (count - 1) as nat);
        let before = telling(lines, (count - 1) as nat);
        assert(!is_reason(lines[count - 1]));
        assert forall|i: int| 0 <= i < telling(lines, count).len() implies !complains(
            #[trigger] telling(lines, count)[i],
        ) by {
            if i < before.len() {
                assert(telling(lines, count)[i] == before[i]);
            }
        }
    }
}

proof fn lemma_telling_grows(lines: Seq<Seq<char>>, few: nat, count: nat)
    requires
        few <= count <= lines.len(),
    ensures
        telling(lines, few).is_prefix_of(telling(lines, count)),
    decreases count,
{
    let start = telling(lines, few);
    let whole = telling(lines, count);
    if few < count {
        let before = telling(lines, (count - 1) as nat);
        lemma_telling_grows(lines, few, (count - 1) as nat);
        assert(whole.take(start.len() as int) == before.take(start.len() as int));
    } else {
        assert(whole.take(start.len() as int) == start);
    }
}

/// Of what Docker printed the first line that looks like the reason is quoted,
/// without the white space around it; one that is marked as an error, without
/// the mark.
pub proof fn the_first_reason_is_quoted(stderr: &str, words: String, at: int)
    requires
        call_ensures(complaint, (stderr,), words),
        0 <= at < text::line_list(stderr@).len(),
        is_reason(text::line_list(stderr@)[at]),
        forall|i: int| 0 <= i < at ==> !is_reason(#[trigger] text::line_list(stderr@)[i]),
    ensures
        ({
            let line = text::trimmed(text::line_list(stderr@)[at]);
            &&& !"ERROR:"@.is_prefix_of(line) ==> words@ == line
            &&& forall|rest: Seq<char>|
                line == #[trigger] ("ERROR:"@ + rest) && !"ERROR:"@.is_prefix_of(rest) ==> words@
                    == text::trimmed(rest)
        }),
{
    let lines = text::line_list(stderr@);
    let said = telling(lines, lines.len());
    let line = text::trimmed(lines[at]);
    let before = telling(lines, at as nat);
    lemma_none_telling(lines, at as nat);
    lemma_telling_grows(lines, (at + 1) as nat, lines.len());
    let start = telling(lines, (at + 1) as nat);
    assert(start == before.push(line));
    assert(said.take(start.len() as int) == start);
    let place: int = before.len() as int;
    assert(said[place] == start[place]);
    assert forall|i: int| 0 <= i < place implies !complains(#[trigger] said[i]) by {
        assert(said[i] == start[i]);
        assert(start[i] == before[i]);
    }
    lemma_first_complaint(said, 0, place);
    text::lemma_trimmed_twice(lines[at]);
    reveal_strlit("ERROR:");
    assert forall|rest: Seq<char>|
        line == #[trigger] ("ERROR:"@ + rest) && !"ERROR:"@.is_prefix_of(rest) implies words@
        == text::trimmed(rest) by {
        assert(line.take(6) == "ERROR:"@);
        assert(line.skip(6) == rest);
        assert(unmarked(rest) == rest);
    }
}

/// Where none of the lines looks like the reason the first that says anything
/// is quoted.
pub proof fn without_a_reason_the_first_line_is_quoted(stderr: &str, words: String, at: int)
    requires
        call_ensures(complaint, (stderr,), words),
        0 <= at < text::line_list(stderr@).len(),
        text::trimmed(text::line_list(stderr@)[at]).len() > 0,
        forall|i: int|
            0 <= i < at ==> text::trimmed(#[trigger] text::line_list(stderr@)[i]).len() == 0,
        forall|i: int|
            0 <= i < text::line_list(stderr@).len() ==> !is_reason(
                #[trigger] text::line_list(stderr@)[i],
            ),
    ensures
        words@ == text::trimmed(text::line_list(stderr@)[at]),
{
    let lines = text::line_list(stderr@);
    let said = telling(lines, lines.len());
    let line = text::trimmed(lines[at]);
    lemma_none_telling(lines, lines.len());
    lemma_nothing_told(lines, at as nat);
    lemma_telling_grows(lines, (at + 1) as nat, lines.len());
    let start = telling(lines, (at + 1) as nat);
    assert(start == Seq::<Seq<char>>::empty().push(line));
    assert(said.take(1)[0] == start[0]);
    lemma_no_complaint(said, 0);
    text::lemma_trimmed_twice(lines[at]);
    assert(!complains(said[0]));
}

proof fn lemma_nothing_told(lines: Seq<Seq<char>>, count: nat)
    requires
        count <= lines.len(),
        forall|i: int| 0 <= i < count ==> text::trimmed(#[trigger] lines[i]).len() == 0,
    ensures
        telling(lines, count) == Seq::<Seq<char>>::empty(),
    decreases count,
{
    if count > 0 {
        lemma_nothing_told(lines, (count - 1) as nat);
        assert(text::trimmed(lines[count - 1]).len() == 0);
    }
}

/// A build on this computer goes ahead exactly where no program is missing.
pub proof fn a_build_needs_its_programs(
    board: Board,
    absent: &Vec<Tool>,
    hint: &Option<String>,
    ready: Result<(), String>,
)
    requires
        call_ensures(ensure_host_toolchain, (board, absent, hint), ready),
    ensures
        ready is Ok <==> absent@.len() == 0,
{
}

} // verus!
