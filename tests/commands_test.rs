use bettershell::dispatch::{command_not_found, command_matcher, handle_echo, handle_type, type_line, Action};
use bettershell::launch::{execute_external_program, External};
use bettershell::search::{candidate_paths, Candidate, Probe};
use bettershell::shell::{cd_target, handle_cd, handle_print_working_directory, expand_home, Shell};
use bettershell::text::{is_white, join_with, parse_line, split_tokens, trim, Separator};

fn words(ws: &[&str]) -> Vec<String> {
    ws.iter().map(|w| w.to_string()).collect()
}

fn probed(path_var: &str, name: &str, probes: &[Probe]) -> Vec<Candidate> {
    candidate_paths(path_var, name)
        .into_iter()
        .zip(probes.iter())
        .map(|(path, probe)| Candidate { path, probe: *probe })
        .collect()
}

#[test]
fn test_handle_echo_single_word() {
    assert_eq!(handle_echo(&words(&["hello"])), "hello");
}

#[test]
fn test_handle_echo_multiple_words() {
    assert_eq!(handle_echo(&words(&["hello", "world", "test"])), "hello world test");
}

#[test]
fn test_handle_pwd() {
    let shell = Shell::starting_at("/home/user/project");
    assert_eq!(handle_print_working_directory(&shell), "/home/user/project");
}

#[test]
fn test_handle_type_builtin_echo() {
    assert_eq!(handle_type("echo", &vec![]), "echo is a shell builtin");
}

#[test]
fn test_handle_type_builtin_exit() {
    assert_eq!(handle_type("exit", &vec![]), "exit is a shell builtin");
}

#[test]
fn test_handle_type_builtin_type() {
    assert_eq!(handle_type("type", &vec![]), "type is a shell builtin");
}

#[test]
fn test_handle_type_builtin_pwd() {
    assert_eq!(handle_type("pwd", &vec![]), "pwd is a shell builtin");
}

#[test]
fn test_handle_type_builtin_cd() {
    assert_eq!(handle_type("cd", &vec![]), "cd is a shell builtin");
}

#[test]
fn test_handle_type_external_command() {
    let cands = probed(
        "/usr/local/bin:/usr/bin:/bin",
        "ls",
        &[Probe::Absent, Probe::Mode(0o100755), Probe::Mode(0o100755)],
    );
    assert_eq!(handle_type("ls", &cands), "ls is /usr/bin/ls");
}

#[test]
fn test_handle_type_nonexistent_command() {
    let cands = probed("/usr/bin:/bin", "nonexistentcommand123", &[Probe::Absent, Probe::Absent]);
    assert_eq!(handle_type("nonexistentcommand123", &cands), "nonexistentcommand123: not found");
}

#[test]
fn test_command_not_found() {
    assert_eq!(command_not_found("nonexistentcommand123"), "nonexistentcommand123: command not found");
}

#[test]
fn test_handle_cd_to_tmp() {
    let mut shell = Shell::starting_at("/home/user");
    let home = Some("/home/user".to_string());
    assert_eq!(cd_target(&shell, "/tmp", &home), "/tmp");
    assert_eq!(handle_cd(&mut shell, "/tmp", &home, true), None);
    assert_eq!(handle_print_working_directory(&shell), "/tmp");
}

#[test]
fn test_handle_cd_invalid_directory() {
    let mut shell = Shell::starting_at("/home/user");
    let home = Some("/home/user".to_string());
    let msg = handle_cd(&mut shell, "/nonexistent_directory_12345", &home, false);
    assert_eq!(msg, Some("cd: /nonexistent_directory_12345: No such file or directory".to_string()));
    assert_eq!(handle_print_working_directory(&shell), "/home/user");
}

#[test]
fn test_handle_cd_with_tilde() {
    let mut shell = Shell::starting_at("/var/log");
    let home = Some("/home/user".to_string());
    assert_eq!(cd_target(&shell, "~", &home), "/home/user");
    assert_eq!(handle_cd(&mut shell, "~", &home, true), None);
    assert_eq!(handle_print_working_directory(&shell), "/home/user");
}

#[test]
fn test_execute_external_program_not_found() {
    let cands = probed("/usr/bin:/bin", "nonexistentprogram12345", &[Probe::Absent, Probe::Unreadable]);
    let r = execute_external_program("nonexistentprogram12345", vec![], &cands);
    assert_eq!(r, External::Report("nonexistentprogram12345: command not found".to_string()));
}

#[test]
fn test_path_parsing() {
    let dirs = split_tokens("/usr/local/bin:/usr/bin:/bin", Separator::Char(':'));
    assert!(dirs.len() > 0);
    assert_eq!(dirs, words(&["/usr/local/bin", "/usr/bin", "/bin"]));
}

#[test]
fn test_home_directory_tilde_expansion() {
    let home_str = "/home/user";
    let expanded = expand_home("~/test", &Some(home_str.to_string()));
    assert!(expanded.starts_with(home_str));
    assert!(!expanded.contains("~"));
    assert_eq!(expanded, "/home/user/test");
}

#[test]
fn test_args_joining() {
    let args = words(&["hello", "world", "test"]);
    let joined = join_with(&args, " ");
    assert_eq!(joined, "hello world test");
}

#[test]
fn test_command_parsing() {
    let (command, args) = parse_line("echo hello world");
    assert_eq!(command, "echo");
    assert_eq!(args.len(), 2);
    assert_eq!(args[0], "hello");
    assert_eq!(args[1], "world");
}

#[test]
fn test_empty_input_parsing() {
    let (command, args) = parse_line("");
    assert_eq!(command, "");
    assert_eq!(args.len(), 0);
}

#[test]
fn test_whitespace_trimming() {
    let trimmed = trim("  echo   hello  \n");
    assert_eq!(trimmed, "echo   hello");
}

#[test]
fn test_echo_args_construction() {
    let args = words(&["hello", "beautiful", "world"]);
    let result = handle_echo(&args);
    assert_eq!(result, "hello beautiful world");
}

#[test]
fn type_line_ignores_search_for_builtins() {
    assert_eq!(type_line("echo", Some("/bin/echo".to_string())), "echo is a shell builtin");
    assert_eq!(type_line("cat", Some("/bin/cat".to_string())), "cat is /bin/cat");
    assert_eq!(type_line("cat", None), "cat: not found");
}

#[test]
fn matcher_routes_each_command() {
    assert_eq!(command_matcher("", vec![]), Action::Nothing);
    assert_eq!(command_matcher("exit", vec![]), Action::Exit);
    assert_eq!(command_matcher("echo", words(&["a", "b", "c"])), Action::Print("a b c".to_string()));
    assert_eq!(command_matcher("echo", vec![]), Action::Print(String::new()));
    assert_eq!(command_matcher("pwd", vec![]), Action::PrintWorkingDir);
    assert_eq!(command_matcher("cd", words(&["/tmp"])), Action::ChangeDir("/tmp".to_string()));
    assert_eq!(command_matcher("cd", vec![]), Action::Nothing);
    assert_eq!(
        command_matcher("type", words(&["pwd"])),
        Action::Print("pwd is a shell builtin".to_string())
    );
    assert_eq!(command_matcher("type", words(&["ls"])), Action::Locate("ls".to_string()));
    assert_eq!(command_matcher("Echo", words(&["x"])), Action::Run("Echo".to_string(), words(&["x"])));
}

#[test]
fn white_space_agrees_with_std() {
    for u in 0u32..0x3100 {
        if let Some(c) = char::from_u32(u) {
            assert_eq!(is_white(c), c.is_whitespace(), "U+{:04X}", u);
        }
    }
    for c in ['\u{FEFF}', '\u{180E}', '\u{200B}', 'a', '~'] {
        assert_eq!(is_white(c), c.is_whitespace());
    }
}

#[test]
fn parse_skips_runs_of_white_space() {
    let (command, args) = parse_line("  type\t ls \u{3000}cat\n");
    assert_eq!(command, "type");
    assert_eq!(args, words(&["ls", "cat"]));
    let (command, args) = parse_line(" \t \n");
    assert_eq!(command, "");
    assert!(args.is_empty());
}
