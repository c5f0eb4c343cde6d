//! The `setup` command: the registry entries that send the opening of a folder
//! of the custom directory class to this program.
use vstd::prelude::*;
use crate::error::{Error, Result};
use crate::fields::DIRECTORY_CLASS;

verus! {

/// The registry entries to write, under the current user's key.
pub struct RegistrySetup {
    /// The key of the directory class.
    pub class_key: String,
    /// The default value of the class key: what the class is.
    pub class_description: String,
    /// The key, under the class key, of the command that opens a folder.
    pub command_key: String,
    /// The default value of the command key: the command line that opens a folder.
    pub command: String,
}

/// The command line that opens the folder `%1` with the program at `exe`.
pub open spec fn spec_open_command(exe: Seq<char>) -> Seq<char> {
    seq!['"'] + exe + "\" run --path \"%1\""@
}

/// The registry entries that send the opening of a folder of the custom
/// directory class to the program at `exe_path`; the error `UnsupportedOS`
/// where the system is not Windows.
pub fn setup(exe_path: &str, windows: bool) -> (r: Result<RegistrySetup>)
    ensures
        !windows <==> r matches Err(Error::UnsupportedOS),
        r is Ok || r matches Err(Error::UnsupportedOS),
        r matches Ok(s) ==> {
            &&& s.class_key@ == "Software\\Classes\\"@ + DIRECTORY_CLASS@
            &&& s.class_description@ == "Desktop.ini Custom Open Handler"@
            &&& s.command_key@ == "Shell\\open\\command"@
            &&& s.command@ == spec_open_command(exe_path@)
        },
{
    if !windows {
        return Err(Error::UnsupportedOS);
    }
    let mut class_key = String::from_str("Software\\Classes\\");
    class_key.append(DIRECTORY_CLASS);
    let mut command = String::from_str("\"");
    command.append(exe_path);
    command.append("\" run --path \"%1\"");
    proof {
        reveal_strlit("\"");
    }
    assert(command@ =~= spec_open_command(exe_path@));
    Ok(RegistrySetup {
        class_key,
        class_description: String::from_str("Desktop.ini Custom Open Handler"),
        command_key: String::from_str("Shell\\open\\command"),
        command,
    })
}

} // verus!
