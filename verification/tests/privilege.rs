use aeris::privilege::{
    choose_elevator, elevated, needs_elevator, refused, CommandLine, ElevatorType, PackageMode,
    PrivilegeError, NOT_ALLOWED, NO_AGENT, REFUSED, WAS_DISMISSED,
};

const DISMISSED: i32 = 126;
const NOT_AUTHORISED: i32 = 127;

fn exited(code: i32) -> Option<i32> {
    Some(code)
}

fn command(program: &str, args: &[&str]) -> CommandLine {
    CommandLine {
        program: program.to_string(),
        args: args.iter().map(|a| a.to_string()).collect(),
        current_dir: None,
        envs: vec![],
    }
}

#[test]
fn a_dismissed_prompt_is_named_as_one() {
    let said = "Error executing command as another user: Request dismissed";
    assert_eq!(
        refused(ElevatorType::Pkexec, exited(DISMISSED), said).as_deref(),
        Some(WAS_DISMISSED)
    );
}

#[test]
fn a_missing_agent_is_told_apart_from_being_turned_down() {
    let none = "Error executing command as another user: No authentication agent found.";
    assert_eq!(
        refused(ElevatorType::Pkexec, exited(NOT_AUTHORISED), none).as_deref(),
        Some(NO_AGENT)
    );

    let denied = "Error executing command as another user: Not authorized";
    assert_eq!(
        refused(ElevatorType::Pkexec, exited(NOT_AUTHORISED), denied).as_deref(),
        Some(NOT_ALLOWED)
    );
}

#[test]
fn silence_is_read_from_the_exit_code_alone() {
    assert_eq!(
        refused(ElevatorType::Pkexec, exited(DISMISSED), "").as_deref(),
        Some(WAS_DISMISSED)
    );
    assert_eq!(
        refused(ElevatorType::Pkexec, exited(NOT_AUTHORISED), "  \n ").as_deref(),
        Some(REFUSED)
    );
}

#[test]
fn a_manager_exiting_127_is_left_to_speak_for_itself() {
    let said = "pacstall: command not found";
    assert_eq!(
        refused(ElevatorType::Pkexec, exited(NOT_AUTHORISED), said),
        None
    );
}

#[test]
fn an_ordinary_failure_is_not_blamed_on_the_elevator() {
    let said = "E: Unable to locate package nosuchthing";
    assert_eq!(refused(ElevatorType::Pkexec, exited(1), said), None);
    assert_eq!(refused(ElevatorType::Sudo, exited(1), said), None);
}

#[test]
fn sudo_without_a_terminal_says_so() {
    let said = "sudo: no tty present and no askpass program specified";
    let why = refused(ElevatorType::Sudo, exited(1), said).expect("should be recognised");
    assert!(why.starts_with("sudo cannot ask for a password from a window"));
}

#[test]
fn user_mode_is_left_alone() {
    let (cmd, elevator) = elevated(PackageMode::User, command("pacstall", &[]), Some(ElevatorType::Pkexec)).unwrap();
    assert_eq!(cmd.program, "pacstall");
    assert!(elevator.is_none());
}

#[test]
fn elevating_keeps_the_arguments_apart() {
    let expected = ElevatorType::Pkexec;
    let original = command("pacstall", &["-I", "a package with spaces"]);

    let (raised, used) = elevated(PackageMode::System, original, Some(expected)).unwrap();
    assert_eq!(used, Some(expected));
    assert_eq!(raised.program, expected.name());

    assert_eq!(raised.args, ["pacstall", "-I", "a package with spaces"]);
}

#[test]
fn the_directory_and_environment_come_along() {
    let mut original = command("apt", &["install", "x"]);
    original.current_dir = Some("/tmp".to_string());
    original.envs = vec![("LANG".to_string(), Some("C".to_string())), ("X".to_string(), None)];
    let (raised, _) = elevated(PackageMode::System, original, Some(ElevatorType::Doas)).unwrap();
    assert_eq!(raised.program, "doas");
    assert_eq!(raised.current_dir.as_deref(), Some("/tmp"));
    assert_eq!(raised.envs, vec![("LANG".to_string(), Some("C".to_string())), ("X".to_string(), None)]);
}

#[test]
fn with_no_elevator_more_rights_cannot_be_asked_for() {
    assert_eq!(
        elevated(PackageMode::System, command("apt", &[]), None).err(),
        Some(PrivilegeError::NoElevatorFound)
    );
    assert!(PrivilegeError::NoElevatorFound.message().starts_with("no way to ask for more rights"));
}

#[test]
fn pkexec_is_asked_first_because_it_can_ask_on_screen() {
    assert_eq!(choose_elevator(true, true, true), Some(ElevatorType::Pkexec));
    assert_eq!(choose_elevator(false, true, true), Some(ElevatorType::Sudo));
    assert_eq!(choose_elevator(false, false, true), Some(ElevatorType::Doas));
    assert_eq!(choose_elevator(false, false, false), None);
    assert!(needs_elevator(PackageMode::System));
    assert!(!needs_elevator(PackageMode::User));
    assert_eq!(PackageMode::default(), PackageMode::User);
    assert_eq!(PackageMode::System.label(), "System");
}

#[test]
fn doas_without_a_terminal_says_so_too() {
    let why = refused(ElevatorType::Doas, None, "doas: a tty is required\nASKPASS unset").unwrap();
    assert!(why.starts_with("doas cannot ask"));
    assert_eq!(refused(ElevatorType::Pkexec, None, ""), None);
}
