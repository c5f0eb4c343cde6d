//! The decisions of running a folder's custom command: whether to ask first,
//! what an answer means, what to start, and when to start it elevated.
use vstd::prelude::*;
use crate::fields::spec_confirm;
use crate::format::execution_section;
use crate::ini::{spec_get, Ini, IniModel};
use crate::text::{chars_of, lower_ascii, lower_char, to_lower_char, trim, trim_chars, views};

verus! {

/// What an answer to the confirmation prompt asks for.
#[derive(Debug, Clone, Copy, PartialEq, Eq, Structural)]
pub enum Confirmation {
    /// Run the command.
    Execute,
    /// Do nothing.
    Cancel,
    /// Open the folder instead.
    OpenFolder,
    /// Open the `desktop.ini` file instead.
    OpenFile,
    /// The answer was not understood: ask again.
    AskAgain,
}

/// What the answer `input` asks for: it is trimmed and compared without regard
/// to ASCII case; `y`, `yes` or nothing runs the command, `n` or `no` cancels,
/// `o` or `open` opens the folder, `f` or `file` opens the file.
pub open spec fn spec_confirmation(input: Seq<char>) -> Confirmation {
    let a = lower_ascii(trim(input));
    if a == seq!['y'] || a == seq!['y', 'e', 's'] || a.len() == 0 {
        Confirmation::Execute
    } else if a == seq!['n'] || a == seq!['n', 'o'] {
        Confirmation::Cancel
    } else if a == seq!['o'] || a == seq!['o', 'p', 'e', 'n'] {
        Confirmation::OpenFolder
    } else if a == seq!['f'] || a == seq!['f', 'i', 'l', 'e'] {
        Confirmation::OpenFile
    } else {
        Confirmation::AskAgain
    }
}

/// Whether `a` is the word `w`.
fn is_word(a: &Vec<char>, w: &[char]) -> (b: bool)
    ensures
        b == (a@ == w@),
{
    if a.len() != w.len() {
        return false;
    }
    let mut i: usize = 0;
    while i < a.len()
        invariant
            a@.len() == w@.len(),
            i <= a@.len(),
            forall|j: int| 0 <= j < i ==> a@[j] == w@[j],
        decreases a@.len() - i,
    {
        if a[i] != w[i] {
            return false;
        }
        i += 1;
    }
    assert(a@ =~= w@);
    true
}

/// What the answer `input` to the confirmation prompt asks for.
pub fn confirmation(input: &str) -> (c: Confirmation)
    ensures
        c == spec_confirmation(input@),
{
    let cs = chars_of(input);
    let t = trim_chars(&cs);
    let mut a: Vec<char> = Vec::new();
    let mut i: usize = 0;
    while i < t.len()
        invariant
            i <= t@.len(),
            a@ == lower_ascii(t@.take(i as int)),
        decreases t@.len() - i,
    {
        a.push(to_lower_char(t[i]));
        assert(lower_ascii(t@.take(i + 1)) =~= lower_ascii(t@.take(i as int)).push(lower_char(t@[i as int])));
        i += 1;
    }
    assert(t@.take(t@.len() as int) == t@);
    let w_y: Vec<char> = vec!['y'];
    let w_yes: Vec<char> = vec!['y', 'e', 's'];
    let w_n: Vec<char> = vec!['n'];
    let w_no: Vec<char> = vec!['n', 'o'];
    let w_o: Vec<char> = vec!['o'];
    let w_open: Vec<char> = vec!['o', 'p', 'e', 'n'];
    let w_f: Vec<char> = vec!['f'];
    let w_file: Vec<char> = vec!['f', 'i', 'l', 'e'];
    assert(w_y@ == seq!['y'] && w_yes@ == seq!['y', 'e', 's']);
    assert(w_n@ == seq!['n'] && w_no@ == seq!['n', 'o']);
    assert(w_o@ == seq!['o'] && w_open@ == seq!['o', 'p', 'e', 'n']);
    assert(w_f@ == seq!['f'] && w_file@ == seq!['f', 'i', 'l', 'e']);
    assert(a@ == lower_ascii(trim(input@)));
    if is_word(&a, &w_y) || is_word(&a, &w_yes) || a.len() == 0 {
        Confirmation::Execute
    } else if is_word(&a, &w_n) || is_word(&a, &w_no) {
        Confirmation::Cancel
    } else if is_word(&a, &w_o) || is_word(&a, &w_open) {
        Confirmation::OpenFolder
    } else if is_word(&a, &w_f) || is_word(&a, &w_file) {
        Confirmation::OpenFile
    } else {
        Confirmation::AskAgain
    }
}

/// The custom command of the folder: the `Target` of the execution section,
/// where it is there and not blank.
pub open spec fn spec_command(m: IniModel) -> Option<Seq<char>> {
    match spec_get(m, execution_section(), "Target"@) {
        Some(line) => if trim(line).len() > 0 {
            Some(line)
        } else {
            None
        },
        None => None,
    }
}

/// The custom command of the folder, as `spec_command` says.
fn command_of(ini: &Ini) -> (cmd: Option<String>)
    ensures
        cmd matches Some(c) ==> spec_command(ini@) == Some(c@),
        cmd is None ==> spec_command(ini@) is None,
{
    match ini.execution() {
        Some(line) => {
            let cs = chars_of(line.as_str());
            let t = trim_chars(&cs);
            if t.len() > 0 {
                Some(line)
            } else {
                None
            }
        },
        None => None,
    }
}

/// Whether the user is asked before the command runs: only where there is a
/// command to run and the stored flag is on. Without a command nothing is
/// asked, and nothing runs.
pub fn confirm_first(ini: &Ini) -> (b: bool)
    ensures
        b == (spec_command(ini@) is Some && spec_confirm(ini@) == Some(true)),
{
    if command_of(ini).is_none() {
        return false;
    }
    match ini.confirm_execution() {
        Some(b) => b,
        None => false,
    }
}

/// What running the custom command starts: `cmd /C` with the command line,
/// in the folder; `None` where there is no command.
pub fn command_line(ini: &Ini) -> (cmd: Option<(String, Vec<String>)>)
    ensures
        cmd is None <==> spec_command(ini@) is None,
        cmd matches Some((exe, args)) ==> spec_command(ini@) matches Some(line) && exe@ == "cmd"@
            && views(args@) == seq!["/C"@, line],
{
    let line = match command_of(ini) {
        Some(l) => l,
        None => return None,
    };
    let mut args: Vec<String> = Vec::new();
    args.push("/C".to_string());
    args.push(line);
    assert(views(args@) =~= seq!["/C"@, spec_command(ini@)->0]);
    Some(("cmd".to_string(), args))
}

/// Whether a failed start calls for an elevated one: where the system said
/// that the operation requires elevation (error 740).
pub fn needs_elevation(raw_os_error: Option<i32>) -> (b: bool)
    ensures
        b == (raw_os_error == Some(740i32)),
{
    match raw_os_error {
        Some(code) => code == 740,
        None => false,
    }
}

} // verus!
