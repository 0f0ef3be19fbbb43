//! Running a package manager as somebody with more rights than the person at
//! the keyboard, and saying plainly when that was refused.
//!
//! Nothing here caches an authorisation. Whether a password is asked once or
//! every time is the elevator's decision.

use vstd::prelude::*;
use crate::text::{cat, chars_of, find, find_chars, trim, trimmed};

verus! {

/// Whose packages an operation is about.
#[derive(Debug, Clone, Copy, PartialEq, Eq, Structural)]
pub enum PackageMode {
    User,
    System,
}

impl Default for PackageMode {
    fn default() -> (r: Self)
        ensures
            r == PackageMode::User,
    {
        PackageMode::User
    }
}

impl PackageMode {
    /// The name the mode is shown under.
    pub fn label(&self) -> (r: String)
        ensures
            r@ == match *self {
                PackageMode::User => "User"@,
                PackageMode::System => "System"@,
            },
    {
        match self {
            PackageMode::User => "User".to_owned(),
            PackageMode::System => "System".to_owned(),
        }
    }
}

/// A way of asking for more rights than the caller has. Its name is also
/// the binary, which is what is looked for to tell whether it is there.
#[derive(Debug, Clone, Copy, PartialEq, Eq, Structural)]
pub enum ElevatorType {
    Sudo,
    Doas,
    Pkexec,
}

/// The binary an elevator is.
pub open spec fn elevator_name(e: ElevatorType) -> Seq<char> {
    match e {
        ElevatorType::Sudo => "sudo"@,
        ElevatorType::Doas => "doas"@,
        ElevatorType::Pkexec => "pkexec"@,
    }
}

impl ElevatorType {
    /// The binary it is, and the name it is shown under.
    pub fn name(&self) -> (r: String)
        ensures
            r@ == elevator_name(*self),
    {
        match self {
            ElevatorType::Sudo => "sudo".to_owned(),
            ElevatorType::Doas => "doas".to_owned(),
            ElevatorType::Pkexec => "pkexec".to_owned(),
        }
    }
}

/// Why more rights could not be asked for.
#[derive(Debug, Clone, Copy, PartialEq, Eq, Structural)]
pub enum PrivilegeError {
    NoElevatorFound,
}

impl PrivilegeError {
    /// What is said of it.
    pub fn message(&self) -> (r: String)
        ensures
            r@ == "no way to ask for more rights was found. One of pkexec, sudo or doas has to be installed"@,
    {
        "no way to ask for more rights was found. One of pkexec, sudo or doas has to be installed".to_owned()
    }
}

/// Which elevator to ask, given which of them are installed.
///
/// pkexec comes first because it is the only one that can put the question on
/// the screen. The others read a terminal, and there is none behind a window.
pub fn choose_elevator(has_pkexec: bool, has_sudo: bool, has_doas: bool) -> (r: Option<ElevatorType>)
    ensures
        r == if has_pkexec {
            Some(ElevatorType::Pkexec)
        } else if has_sudo {
            Some(ElevatorType::Sudo)
        } else if has_doas {
            Some(ElevatorType::Doas)
        } else {
            None
        },
{
    if has_pkexec {
        Some(ElevatorType::Pkexec)
    } else if has_sudo {
        Some(ElevatorType::Sudo)
    } else if has_doas {
        Some(ElevatorType::Doas)
    } else {
        None
    }
}

/// A command as it will be run: the program, its arguments, the directory
/// it runs in if one was set, and the environment it was given, each
/// variable set to a value or removed.
pub struct CommandLine {
    pub program: String,
    pub args: Vec<String>,
    pub current_dir: Option<String>,
    pub envs: Vec<(String, Option<String>)>,
}

/// Whether an operation in this mode has to ask for more rights.
pub fn needs_elevator(mode: PackageMode) -> (r: bool)
    ensures
        r == (mode == PackageMode::System),
{
    mode == PackageMode::System
}

/// The same command, run by somebody who is allowed to run it, and whichever
/// elevator was asked so a refusal can be told apart from a real failure.
///
/// `detected` is the elevator found installed. A command for the user's own
/// packages is left alone. Otherwise the elevator runs it: the program and
/// its arguments become the elevator's arguments, kept apart as they were,
/// and the directory and environment are carried over.
pub fn elevated(mode: PackageMode, cmd: CommandLine, detected: Option<ElevatorType>) -> (r: Result<
    (CommandLine, Option<ElevatorType>),
    PrivilegeError,
>)
    ensures
        mode == PackageMode::User ==> (r matches Ok((c, e)) && c == cmd && e is None),
        mode == PackageMode::System && detected is None ==> r == Err::<
            (CommandLine, Option<ElevatorType>),
            PrivilegeError,
        >(PrivilegeError::NoElevatorFound),
        mode == PackageMode::System && detected is Some ==> (r matches Ok((c, e)) && e == detected
            && c.program@ == elevator_name(detected->0) && c.args@ == seq![cmd.program] + cmd.args@
            && c.current_dir == cmd.current_dir && c.envs == cmd.envs),
{
    if mode == PackageMode::User {
        return Ok((cmd, None));
    }
    let elevator = match detected {
        Some(e) => e,
        None => return Err(PrivilegeError::NoElevatorFound),
    };
    let CommandLine { program, args, current_dir, envs } = cmd;
    let mut raised_args: Vec<String> = Vec::new();
    raised_args.push(program);
    let mut rest = args;
    let ghost first = raised_args@;
    let ghost moved = rest@;
    raised_args.append(&mut rest);
    assert(raised_args@ =~= first + moved);
    Ok((CommandLine { program: elevator.name(), args: raised_args, current_dir, envs }, Some(elevator)))
}

/// `to_ascii_lowercase` of one character.
pub open spec fn ascii_lower(c: char) -> char {
    if 'A' <= c <= 'Z' {
        ((c as u32) + 32) as char
    } else {
        c
    }
}

/// `str::to_ascii_lowercase`.
pub open spec fn lowered(s: Seq<char>) -> Seq<char> {
    s.map_values(|c: char| ascii_lower(c))
}

/// Whether `p` occurs in `s`.
pub open spec fn mentions(s: Seq<char>, p: Seq<char>) -> bool {
    find(s, p) is Some
}

fn lower_chars(s: &str) -> (r: Vec<char>)
    ensures
        r@ == lowered(s@),
{
    let v = chars_of(s);
    let mut out: Vec<char> = Vec::new();
    let mut i: usize = 0;
    while i < v.len()
        invariant
            i <= v@.len(),
            out@ == lowered(v@.take(i as int)),
        decreases v@.len() - i,
    {
        let c = v[i];
        let l = if 'A' <= c && c <= 'Z' {
            ((c as u32) + 32) as u8 as char
        } else {
            c
        };
        assert(('A' <= c <= 'Z') ==> ((c as u32) + 32) as u8 as char == ((c as u32) + 32) as char);
        out.push(l);
        assert(out@ =~= lowered(v@.take(i + 1)));
        i = i + 1;
    }
    assert(v@.take(i as int) =~= v@);
    out
}

fn mentions_text(s: &Vec<char>, p: &str) -> (r: bool)
    ensures
        r == mentions(s@, p@),
{
    find_chars(s, &chars_of(p)).is_some()
}

/// What is said when the password prompt was dismissed.
pub const WAS_DISMISSED: &'static str = "the password prompt was dismissed";

/// What is said when nothing was there to ask for the password.
pub const NO_AGENT: &'static str = "nothing was there to ask for a password. A polkit authentication agent has to be running in this session";

/// What is said when the person asked was not allowed.
pub const NOT_ALLOWED: &'static str = "not authorised to run this";

/// Where pkexec refused without saying which of the two it was.
pub const REFUSED: &'static str = "not authorised, and there may be no polkit authentication agent running in this session to ask for a password";

/// Why pkexec refused, given what it exited with and what it said.
///
/// pkexec says which refusal it was on stderr, so the wording is read
/// before the exit code. The exit code is read only when nothing was said:
/// a manager can exit 126 or 127 for reasons of its own, but it would have
/// complained on the way out.
pub open spec fn pkexec_refusal(code: Option<i32>, said: Seq<char>) -> Option<Seq<char>> {
    let l = lowered(said);
    if mentions(l, "request dismissed"@) {
        Some(WAS_DISMISSED@)
    } else if mentions(l, "no authentication agent"@) {
        Some(NO_AGENT@)
    } else if mentions(l, "not authorized"@) || mentions(l, "not authorised"@) {
        Some(NOT_ALLOWED@)
    } else if trim(said).len() > 0 {
        None
    } else if code == Some(126i32) {
        Some(WAS_DISMISSED@)
    } else if code == Some(127i32) {
        Some(REFUSED@)
    } else {
        None
    }
}

/// Why the elevator refused, where the failure was its and not the
/// manager's; nothing where the manager itself ran and failed, and what it
/// said about that is the better thing to report.
pub open spec fn refusal(elevator: ElevatorType, code: Option<i32>, said: Seq<char>) -> Option<Seq<char>> {
    match elevator {
        ElevatorType::Pkexec => pkexec_refusal(code, said),
        _ => {
            let l = lowered(said);
            if mentions(l, "no tty"@) || mentions(l, "askpass"@) {
                Some(
                    elevator_name(elevator)
                        + " cannot ask for a password from a window. Installing pkexec and a polkit authentication agent would let the desktop ask instead"@,
                )
            } else {
                None
            }
        },
    }
}

/// Why the elevator refused, where the failure was its and not the manager's.
///
/// `code` is the exit code, or nothing when the process was ended by a
/// signal; `said` is what it wrote to stderr.
pub fn refused(elevator: ElevatorType, code: Option<i32>, said: &str) -> (r: Option<String>)
    ensures
        match r {
            Some(m) => refusal(elevator, code, said@) == Some(m@),
            None => refusal(elevator, code, said@) is None,
        },
{
    let l = lower_chars(said);
    match elevator {
        ElevatorType::Pkexec => {
            if mentions_text(&l, "request dismissed") {
                return Some(WAS_DISMISSED.to_owned());
            }
            if mentions_text(&l, "no authentication agent") {
                return Some(NO_AGENT.to_owned());
            }
            if mentions_text(&l, "not authorized") || mentions_text(&l, "not authorised") {
                return Some(NOT_ALLOWED.to_owned());
            }
            if trimmed(&chars_of(said)).len() > 0 {
                return None;
            }
            match code {
                Some(126i32) => Some(WAS_DISMISSED.to_owned()),
                Some(127i32) => Some(REFUSED.to_owned()),
                _ => None,
            }
        },
        _ => {
            if mentions_text(&l, "no tty") || mentions_text(&l, "askpass") {
                let name = elevator.name();
                Some(
                    cat(
                        name.as_str(),
                        " cannot ask for a password from a window. Installing pkexec and a polkit authentication agent would let the desktop ask instead",
                    ),
                )
            } else {
                None
            }
        },
    }
}

/// The program a system-mode command is run through is the binary of the
/// elevator found: `sudo`, `doas` or `pkexec`, each its own, so the one
/// that can ask from a window is never swapped for one that cannot.
pub proof fn each_elevator_runs_its_own_binary()
    ensures
        elevator_name(ElevatorType::Sudo) == "sudo"@,
        elevator_name(ElevatorType::Doas) == "doas"@,
        elevator_name(ElevatorType::Pkexec) == "pkexec"@,
        forall|a: ElevatorType, b: ElevatorType| a != b ==> elevator_name(a) != elevator_name(b),
{
    reveal_strlit("sudo");
    reveal_strlit("doas");
    reveal_strlit("pkexec");
    assert("sudo"@[0] == 's' && "doas"@[0] == 'd' && "pkexec"@[0] == 'p');
}

/// sudo and doas are read alike, by their words alone: either refused
/// exactly when what they said, in any case, mentions `no tty` or
/// `askpass`; what they exited with plays no part; and the explanation
/// starts with the elevator's own name.
pub proof fn sudo_and_doas_are_read_by_their_words(
    elevator: ElevatorType,
    code: Option<i32>,
    other_code: Option<i32>,
    said: Seq<char>,
)
    requires
        elevator != ElevatorType::Pkexec,
    ensures
        refusal(elevator, code, said) is Some <==> (mentions(lowered(said), "no tty"@) || mentions(
            lowered(said),
            "askpass"@,
        )),
        refusal(ElevatorType::Sudo, code, said) is Some <==> refusal(ElevatorType::Doas, code, said) is Some,
        refusal(elevator, code, said) == refusal(elevator, other_code, said),
        refusal(elevator, code, said) matches Some(m) ==> m.take(elevator_name(elevator).len() as int)
            == elevator_name(elevator),
{
    if let Some(m) = refusal(elevator, code, said) {
        assert(m.take(elevator_name(elevator).len() as int) =~= elevator_name(elevator));
    }
}

} // verus!
