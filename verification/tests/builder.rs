use rosco_cli::builder::{
    build_directory_name, command_names, complaint, container_path, docker_arguments,
    docker_volume_source, ensure_docker_available, ensure_host_toolchain, next_step, no_artifact,
    refusal_message, strip_windows_verbatim_prefix, workspace, BuildStage, BuildStep, Probe,
    LIBRARY_LINKER_SCRIPT,
};
use rosco_cli::config::{Board, Config, Host, ProjectKind, Toolchain};
use rosco_cli::toolchain::{install_hint, missing};

fn runner_for(config: &Config, root: &str) -> Vec<String> {
    docker_arguments(
        config,
        root,
        &None,
        "/workspace/hello",
        &config.build.working_directory,
        &vec!["all".to_string()],
    )
}

#[test]
fn a_stopped_daemon_is_explained_in_dockers_own_words() {
    let message = refusal_message(
        "failed to connect to the docker API at unix:///home/me/.docker/desktop/docker.sock; \
         check if the path is correct and if the daemon is running\n",
    );

    assert!(message.contains("daemon is not answering"), "{message}");
    assert!(message.contains("docker.sock"), "{message}");
    assert!(message.contains("systemctl start docker"), "{message}");
}

#[test]
fn a_socket_this_user_cannot_open_suggests_the_group_instead() {
    let message = refusal_message(
        "ERROR: permission denied while trying to connect to the Docker daemon socket\n",
    );

    assert!(message.contains("cannot reach its daemon"), "{message}");
    assert!(message.contains("usermod -aG docker"), "{message}");
    assert!(!message.starts_with("ERROR:"), "{message}");
}

#[test]
fn dockers_noise_around_the_complaint_is_dropped() {
    let message = refusal_message(
        "Client:\n Version: 27.0.3\n\nServer:\nERROR: Cannot connect to the Docker daemon.\nerrors pretty printing info\n",
    );

    assert!(
        message.contains("Cannot connect to the Docker daemon."),
        "{message}"
    );
    assert!(!message.contains("pretty printing"), "{message}");
}

#[test]
fn strips_windows_verbatim_drive_prefix() {
    assert_eq!(
        strip_windows_verbatim_prefix(r"\\?\C:\Users\savcu\hello"),
        r"C:\Users\savcu\hello"
    );
}

#[test]
fn strips_windows_verbatim_unc_prefix() {
    assert_eq!(
        strip_windows_verbatim_prefix(r"\\?\UNC\server\share\hello"),
        r"\\server\share\hello"
    );
}

#[test]
fn leaves_standard_path_unchanged() {
    assert_eq!(
        docker_volume_source(r"C:\Users\savcu\hello"),
        r"C:\Users\savcu\hello"
    );
}

#[test]
fn linker_script_path_matches_the_library_install_target() {
    assert_eq!(
        LIBRARY_LINKER_SCRIPT,
        "libs/build/lib/ld/serial/hugerom_rosco_m68k_program.ld"
    );
}

#[test]
fn the_project_keeps_its_directory_name_inside_the_container() {
    let arguments = runner_for(&Config::default(), "/work/hello");
    let volume = arguments
        .windows(2)
        .find(|pair| pair[0] == "--volume")
        .expect("the project is mounted");

    assert_eq!(volume[1], "/work/hello:/workspace/hello");
    assert!(arguments.contains(&"/workspace/hello".to_string()));
}

#[test]
fn a_build_directory_is_selected_with_the_containers_own_separator() {
    assert_eq!(container_path("/workspace/hello", "."), "/workspace/hello");
    assert_eq!(
        container_path("/workspace/hello", "firmware/boot"),
        "/workspace/hello/firmware/boot"
    );
}

#[test]
fn build_variables_reach_the_container() {
    let mut config = Config::default();
    config
        .build
        .environment
        .push(("ROSCO_M68K_DIR".into(), "../rosco_m68k".into()));

    let arguments = runner_for(&config, "/work/hello");

    assert!(arguments.contains(&"ROSCO_M68K_DIR=../rosco_m68k".to_string()));
}

#[test]
fn an_arm_host_can_ask_for_the_published_platform() {
    let mut config = Config::default();
    config.build.docker.platform = Some("linux/amd64".into());

    let arguments = runner_for(&config, "/work/hello");

    assert_eq!(arguments[2], "--platform");
    assert_eq!(arguments[3], "linux/amd64");
}

#[test]
fn a_missing_6502_toolchain_names_what_to_install() {
    // Nothing is asserted about this machine: the message is built from the
    // tool list, and one of the two paths out of it is always offered.
    let absent = missing(Board::Rosco6502, &Vec::new());
    let hint = install_hint(Board::Rosco6502, Host::Linux, None);
    let message = match ensure_host_toolchain(Board::Rosco6502, &absent, &hint) {
        Ok(()) => panic!("nothing is installed"),
        Err(error) => error,
    };

    assert!(message.contains("rosco_6502 toolchain"), "{message}");
    assert!(message.contains("--docker"), "{message}");
}

#[test]
fn one_missing_tool_is_spoken_of_in_the_singular() {
    let here = vec!["make".to_string(), "ca65".to_string(), "ld65".to_string()];
    let absent = missing(Board::Rosco6502, &here);
    assert_eq!(command_names(&absent), ["cl65"]);
    let hint = install_hint(Board::Rosco6502, Host::Linux, Some("ID=debian\n"));
    assert_eq!(
        ensure_host_toolchain(Board::Rosco6502, &absent, &hint).unwrap_err(),
        "the rosco_6502 toolchain is not on PATH: cl65 is missing.\n  \
         Install it with `sudo apt install cc65`.\n  \
         Or build in the toolchain image instead, with `rosco build --docker` or \
         `rosco config set build.toolchain docker`."
    );
    assert!(ensure_host_toolchain(Board::Rosco6502, &Vec::new(), &hint).is_ok());
}

#[test]
fn docker_is_asked_before_anything_runs_in_it() {
    assert!(ensure_docker_available(&Probe::Ready).is_ok());
    let missing = ensure_docker_available(&Probe::Missing).unwrap_err();
    assert!(missing.starts_with("docker is not installed"), "{missing}");
    assert!(missing.ends_with("`rosco build --host`."), "{missing}");
    let refused = Probe::Refused("denied\n".to_string());
    assert_eq!(
        ensure_docker_available(&refused).unwrap_err(),
        refusal_message("denied\n")
    );
    assert_eq!(complaint(""), "docker info failed");
    assert_eq!(complaint("first\nERROR:ERROR: second\n"), "second");
}

#[test]
fn every_argument_of_a_container_build() {
    let mut config = Config::default();
    config.build.environment.push(("A".into(), "1".into()));
    let arguments = docker_arguments(
        &config,
        "/work/hello",
        &Some("1000:1000".to_string()),
        "/workspace/hello",
        "boot",
        &vec!["all".to_string()],
    );
    assert_eq!(
        arguments,
        [
            "run",
            "--rm",
            "--user",
            "1000:1000",
            "--env",
            "HOME=/tmp",
            "--env",
            "A=1",
            "--volume",
            "/work/hello:/workspace/hello",
            "--workdir",
            "/workspace/hello/boot",
            "solderdemon/rosco_m68k:latest",
            "make",
            "all",
        ]
    );
}

/// The commands of a whole build, and where its result is expected.
fn whole_build(config: &Config, clean: bool, libraries_ready: bool) -> (Vec<String>, String) {
    let place = workspace(config, "/work/hello").unwrap();
    let mut stage = BuildStage::Prepared;
    let mut lines = Vec::new();
    loop {
        let Ok((next, step)) = next_step(
            stage,
            config,
            "/work/hello",
            &None,
            &place,
            clean,
            libraries_ready,
        ) else {
            panic!("the directory has a name");
        };
        match step {
            BuildStep::Run { command, failure } => {
                lines.push(format!("{failure}: {}", command.line()));
            }
            BuildStep::Expect(artifact) => return (lines, artifact),
        }
        stage = next;
    }
}

#[test]
fn a_build_here_cleans_makes_the_libraries_and_builds() {
    let mut config = Config::default();
    config.build.toolchain = Toolchain::Host;
    assert_eq!(workspace(&config, "/work/hello").unwrap(), None);

    let (lines, artifact) = whole_build(&config, true, false);
    assert_eq!(
        lines,
        [
            "clean command failed: $ make clean",
            "library installation failed: $ make -C libs install",
            "build command failed: $ make all PROGRAM_BASENAME=hello",
        ]
    );
    assert_eq!(artifact, "/work/hello/hello.bin");

    let (lines, _) = whole_build(&config, false, true);
    assert_eq!(
        lines,
        ["build command failed: $ make all PROGRAM_BASENAME=hello"]
    );

    config.project.kind = ProjectKind::Firmware;
    let (lines, artifact) = whole_build(&config, false, false);
    assert_eq!(lines, ["build command failed: $ make all"]);
    assert_eq!(artifact, "/work/hello/hello.rom");
    assert_eq!(
        no_artifact(&artifact),
        "build succeeded but artifact was not found at /work/hello/hello.rom; set \
         project.artifact in rosco.toml"
    );
}

#[test]
fn a_build_in_a_container_keeps_the_directory_name() {
    let config = Config::default();
    assert_eq!(build_directory_name(&config, "/work/hello").unwrap(), "hello");
    assert_eq!(
        workspace(&config, "/work/hello").unwrap().as_deref(),
        Some("/workspace/hello")
    );
    assert_eq!(
        build_directory_name(&config, "/").unwrap_err(),
        "cannot determine project directory name"
    );
    let (lines, _) = whole_build(&config, false, true);
    assert_eq!(lines.len(), 1);
    assert!(lines[0].starts_with("build command failed: $ docker run --rm"), "{}", lines[0]);
    assert!(lines[0].ends_with("make all PROGRAM_BASENAME=hello"), "{}", lines[0]);
}

#[test]
fn a_build_directory_keeps_its_name() {
    for (directory, name) in [
        (".", "hello"),
        ("firmware", "firmware"),
        ("./a/../b", "b"),
        ("../other", "other"),
        ("/elsewhere/c", "c"),
    ] {
        let mut config = Config::default();
        config.build.working_directory = directory.to_string();
        assert_eq!(build_directory_name(&config, "/work/hello").unwrap(), name);
        let place = workspace(&config, "/work/hello")
            .unwrap()
            .expect("the image is used");
        assert_eq!(place, format!("/workspace/{name}"));
        let inside = container_path(&place, directory);
        assert!(inside.ends_with(&format!("/{name}")), "{inside}");
    }
}
