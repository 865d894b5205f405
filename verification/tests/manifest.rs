use pty_core::maps::TagMap;
use pty_core::paths::{is_absolute, normalize, AboveTop};
use pty_core::ptyfile::{
    command_with_env_exports, manifest_path, read_pty_file, resolve_against, resolve_dir,
    ManifestRead, PtyFile,
};
use pty_core::spawn::{command_search, resolve_command};

const DIR: &str = "/work/proj";

fn read(toml: &str) -> Result<PtyFile, String> {
    read_pty_file(DIR, ManifestRead::Text(toml.to_string()))
}

fn tags(pairs: &[(&str, &str)]) -> TagMap {
    pairs.iter().map(|(k, v)| (k.to_string(), v.to_string())).collect()
}

fn labels(f: &PtyFile) -> Vec<&str> {
    f.sessions.iter().map(|s| s.display_name.as_str()).collect()
}

#[test]
fn up_starts_every_session() {
    let f = read("\n[sessions.one]\ncommand = \"cat\"\n[sessions.two]\ncommand = \"cat\"\n").unwrap();
    assert_eq!(labels(&f), ["one", "two"]);
    assert!(f.sessions.iter().all(|s| s.command == "cat"));
    assert_eq!(f.dir, DIR);
}

#[test]
fn up_propagates_tags_from_the_manifest() {
    let f = read(
        "\n[sessions.tagged]\ncommand = \"cat\"\ntags = { role = \"server\", env = \"dev\" }\n",
    )
    .unwrap();
    assert_eq!(f.sessions[0].tags, Some(tags(&[("role", "server"), ("env", "dev")])));
}

#[test]
fn up_sets_cwd_to_the_project_dir() {
    let f = read("\n[sessions.checkdir]\ncommand = \"cat\"\n").unwrap();
    assert_eq!(f.sessions[0].cwd, None);
    assert_eq!(f.dir, DIR);
}

#[test]
fn up_honors_an_explicit_absolute_cwd() {
    let f = read("\n[sessions.elsewhere]\ncommand = \"cat\"\ncwd = \"/run/here\"\n").unwrap();
    assert_eq!(f.sessions[0].cwd.as_deref(), Some("/run/here"));
}

#[test]
fn up_resolves_a_relative_cwd_against_the_manifest_dir() {
    let text = "\n[sessions.rooted]\ncommand = \"cat\"\ncwd = \"..\"\n";
    let f = read_pty_file("/work/proj/.convoy", ManifestRead::Text(text.to_string())).unwrap();
    assert_eq!(f.sessions[0].cwd.as_deref(), Some("/work/proj"));
}

#[test]
fn up_uses_the_prefix_for_session_names() {
    let f = read(
        "\nprefix = \"myapp\"\n[sessions.web]\ncommand = \"cat\"\n[sessions.worker]\ncommand = \"cat\"\n",
    )
    .unwrap();
    assert_eq!(labels(&f), ["myapp-web", "myapp-worker"]);
    assert_eq!(f.sessions[0].short_name, "web");
    assert_eq!(f.prefix.as_deref(), Some("myapp"));
}

#[test]
fn up_errors_without_a_manifest() {
    let message = read_pty_file(DIR, ManifestRead::NotFound).unwrap_err();
    assert_eq!(message, "No pty.toml found in /work/proj");
    let failed = read_pty_file(DIR, ManifestRead::Failed("denied".into())).unwrap_err();
    assert_eq!(failed, "denied");
}

#[test]
fn up_errors_on_a_manifest_without_sessions() {
    let message = read("# empty config\n").unwrap_err();
    assert_eq!(message, "No sessions defined in /work/proj/pty.toml");
}

#[test]
fn up_errors_on_a_session_without_a_command() {
    let message = read("\n[sessions.bad]\ntags = { foo = \"bar\" }\n").unwrap_err();
    assert!(message.contains("missing a \"command\" field"), "{message}");
}

#[test]
fn up_supports_a_prefix_longer_than_the_sock_path_limit() {
    let long = "p".repeat(90);
    let f = read(&format!("\nprefix = \"{long}\"\n[sessions.web]\ncommand = \"cat\"\n")).unwrap();
    assert_eq!(labels(&f), [format!("{long}-web")]);
}

#[test]
fn up_honors_a_pinned_id() {
    let f = read("\n[sessions.svc]\nid = \"pinned\"\ncommand = \"cat\"\n").unwrap();
    assert_eq!(f.sessions[0].id.as_deref(), Some("pinned"));
    assert_eq!(f.sessions[0].display_name, "svc");
}

#[test]
fn up_honors_display_name_override() {
    let f = read(
        "\nprefix = \"myapp\"\n[sessions.web]\ndisplay_name = \"My Web Server\"\ncommand = \"cat\"\n",
    )
    .unwrap();
    assert_eq!(labels(&f), ["My Web Server"]);
}

#[test]
fn up_propagates_env_from_the_manifest() {
    let f = read(
        "\n[sessions.envprobe]\ncommand = \"run it\"\n[sessions.envprobe.env]\nMY_VAR = \"hello\"\nANOTHER = \"it's\"\n",
    )
    .unwrap();
    assert_eq!(f.sessions[0].env, Some(tags(&[("MY_VAR", "hello"), ("ANOTHER", "it's")])));
    let line = command_with_env_exports(&f.sessions[0]);
    assert!(line.contains("MY_VAR='hello'"), "{line}");
    assert!(line.contains("ANOTHER='it'\\''s'"), "{line}");
    assert!(line.ends_with("run it"), "{line}");
}

#[test]
fn a_command_without_an_environment_is_left_alone() {
    let f = read("[sessions.a]\ncommand = \"cat -n\"\n").unwrap();
    assert_eq!(command_with_env_exports(&f.sessions[0]), "cat -n");
}

#[test]
fn a_document_that_is_no_manifest_is_told() {
    let message = read("not toml at all").unwrap_err();
    assert!(message.starts_with("Invalid pty.toml in /work/proj: "), "{message}");
    let message = read("[sessions]\na = 3\n").unwrap_err();
    assert!(message.contains("expected a table"), "{message}");
    let message = read("[sessions.a]\ncommand = \"cat\"\nenv = { X = 3 }\n").unwrap_err();
    assert!(message.contains("env"), "{message}");
    let message = read("[sessions.a]\ncommand = \"cat\"\nid = \"\"\n").unwrap_err();
    assert!(message.contains("\"id\" must be a non-empty string"), "{message}");
}

#[test]
fn tags_of_other_types_are_written_out() {
    let f = read("[sessions.a]\ncommand = \"cat\"\ntags = { n = 3, b = true }\n").unwrap();
    assert_eq!(f.sessions[0].tags, Some(tags(&[("n", "3"), ("b", "true")])));
}

// ---- paths and commands --------------------------------------------------

#[test]
fn paths_are_walked_part_by_part() {
    assert_eq!(normalize("/a/./b/../c//d", AboveTop::Drop), "/a/c/d");
    assert_eq!(normalize("/../a", AboveTop::Drop), "/a");
    assert_eq!(resolve_against("/base", "x/../y"), "/base/y");
    assert_eq!(resolve_against("/base", "/abs"), "/abs");
    assert_eq!(resolve_dir(None, "/cwd"), "/cwd");
    assert_eq!(resolve_dir(Some("sub"), "/cwd"), "/cwd/sub");
    assert_eq!(manifest_path("/p"), "/p/pty.toml");
    assert!(is_absolute("/x"));
    assert!(!is_absolute("x/"));
}

fn found(cmd: &str, present: &[&str]) -> Result<String, String> {
    let search = command_search(cmd, Some("/cwd"), Some("/usr/bin:/bin"));
    let passes: Vec<bool> =
        search.candidates.iter().map(|c| present.contains(&c.as_str())).collect();
    resolve_command(cmd, &search, &passes)
}

#[test]
fn absolute_paths_must_exist() {
    assert_eq!(found("/bin/sh", &["/bin/sh"]).unwrap(), "/bin/sh");
    assert_eq!(
        found("/definitely/not/here", &["/bin/sh"]).unwrap_err(),
        "Command not found: /definitely/not/here"
    );
    assert!(!command_search("/bin/sh", None, None).executable);
}

#[test]
fn bare_names_come_from_path() {
    let sh = found("sh", &["/bin/sh"]).unwrap();
    assert!(sh.ends_with("/sh"), "{sh}");
    assert_eq!(sh, "/bin/sh");
    assert_eq!(found("sh", &["/bin/sh", "/usr/bin/sh"]).unwrap(), "/usr/bin/sh");
    assert_eq!(
        found("no-such-command-xyz", &["/bin/sh"]).unwrap_err(),
        "Command not found: no-such-command-xyz"
    );
    assert!(command_search("sh", None, Some("/bin")).executable);
    assert!(command_search("", None, Some("/bin")).candidates.is_empty());
}

#[test]
fn relative_paths_resolve_against_cwd() {
    let rel = "./dir/../dir/tool";
    assert_eq!(found(rel, &["/cwd/dir/tool"]).unwrap(), "/cwd/dir/tool");
    assert!(found(rel, &[]).is_err());
}
