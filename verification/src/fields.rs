//! The named fields of a `desktop.ini` file: display name, tip, icon, the
//! custom command and its confirmation flag, and the command's arguments.
use vstd::prelude::*;
use crate::args::{join_args, lemma_parse_join_args, parse_args, plain_arg, spec_join_args, spec_parse_args};
use crate::format::{execution_section, shell_section};
use crate::ini::{
    lemma_get_after_remove, lemma_get_after_set, model_wf, spec_get, spec_remove, spec_set, Ini,
    IniModel,
};
use crate::text::{chars_of, trim, trim_chars, views};

verus! {

/// The directory class that sends the opening of a folder to this program.
pub const DIRECTORY_CLASS: &'static str = "INI.CustomExecution";

/// `m` after a field is given `value`: a blank value (empty after trimming)
/// removes the key, any other value sets it.
pub open spec fn spec_set_field(m: IniModel, section: Seq<char>, key: Seq<char>, value: Seq<char>) -> IniModel {
    if trim(value).len() == 0 {
        spec_remove(m, section, key)
    } else {
        spec_set(m, section, key, value)
    }
}

/// What `confirm_execution` reads from a stored flag: any value but `0` is on.
pub open spec fn spec_confirm(m: IniModel) -> Option<bool> {
    match spec_get(m, execution_section(), "ConfirmExecution"@) {
        Some(v) => Some(v != seq!['0']),
        None => None,
    }
}

/// What a read of a field gives back after it was given `value`: nothing where
/// the value was blank, the value otherwise.
pub proof fn lemma_field_after_set(m: IniModel, section: Seq<char>, key: Seq<char>, value: Seq<char>)
    requires
        model_wf(m),
    ensures
        spec_get(spec_set_field(m, section, key, value), section, key) == if trim(value).len() == 0 {
            None
        } else {
            Some(value)
        },
{
    lemma_get_after_set(m, section, key, value, section, key);
    lemma_get_after_remove(m, section, key, section, key);
}

/// What the confirmation flag reads back as after it was stored.
pub proof fn lemma_confirm_after_set(m: IniModel, value: bool)
    requires
        model_wf(m),
    ensures
        spec_confirm(
            spec_set(
                m,
                execution_section(),
                "ConfirmExecution"@,
                if value {
                    "1"@
                } else {
                    "0"@
                },
            ),
        ) == Some(value),
{
    let v: Seq<char> = if value {
        "1"@
    } else {
        "0"@
    };
    lemma_get_after_set(m, execution_section(), "ConfirmExecution"@, v, execution_section(), "ConfirmExecution"@);
    reveal_strlit("1");
    reveal_strlit("0");
    if value {
        assert(v[0] == '1');
        assert(v != seq!['0']) by {
            if v == seq!['0'] {
                assert(v[0] == '0');
            }
        }
    } else {
        assert(v =~= seq!['0']);
    }
}

/// What reading the arguments gives back after they were stored: the same
/// arguments, where each is plain (not empty, without white space, `%1` or `%%`).
pub proof fn lemma_args_after_set(m: IniModel, args: Seq<Seq<char>>, path: Seq<char>)
    requires
        model_wf(m),
        forall|i: int| 0 <= i < args.len() ==> plain_arg(#[trigger] args[i]),
    ensures
        spec_get(spec_set(m, execution_section(), "Args"@, spec_join_args(args)), execution_section(), "Args"@)
            == Some(spec_join_args(args)),
        spec_parse_args(spec_join_args(args), path) == args,
{
    lemma_get_after_set(m, execution_section(), "Args"@, spec_join_args(args), execution_section(), "Args"@);
    lemma_parse_join_args(args, path);
}

impl Ini {
    /// Gives a field `value`, or removes it where `value` is blank; gives back
    /// the value that it had.
    fn set_field(&mut self, section: &str, key: &str, value: String) -> (previous: Option<String>)
        requires
            old(self).wf(),
        ensures
            final(self).wf(),
            final(self)@ == spec_set_field(old(self)@, section@, key@, value@),
            previous matches Some(p) ==> spec_get(old(self)@, section@, key@) == Some(p@),
            previous is None ==> spec_get(old(self)@, section@, key@) is None,
    {
        let cs = chars_of(value.as_str());
        let t = trim_chars(&cs);
        if t.len() == 0 {
            self.remove(section, key)
        } else {
            self.set(section, key, value.as_str())
        }
    }

    /// The tip shown when the pointer rests on the folder (`InfoTip`).
    pub fn info_tip(&self) -> (value: Option<String>)
        ensures
            value matches Some(v) ==> spec_get(self@, shell_section(), "InfoTip"@) == Some(v@),
            value is None ==> spec_get(self@, shell_section(), "InfoTip"@) is None,
    {
        self.get("[.ShellClassInfo]", "InfoTip")
    }

    /// Sets the tip (`InfoTip`); a blank value removes it.
    pub fn set_info_tip(&mut self, value: String) -> (previous: Option<String>)
        requires
            old(self).wf(),
        ensures
            final(self).wf(),
            final(self)@ == spec_set_field(old(self)@, shell_section(), "InfoTip"@, value@),
            previous matches Some(p) ==> spec_get(old(self)@, shell_section(), "InfoTip"@) == Some(p@),
            previous is None ==> spec_get(old(self)@, shell_section(), "InfoTip"@) is None,
    {
        self.set_field("[.ShellClassInfo]", "InfoTip", value)
    }

    /// The custom command of the folder (`Target`).
    pub fn execution(&self) -> (value: Option<String>)
        ensures
            value matches Some(v) ==> spec_get(self@, execution_section(), "Target"@) == Some(v@),
            value is None ==> spec_get(self@, execution_section(), "Target"@) is None,
    {
        self.get("[.CustomExecution]", "Target")
    }

    /// Sets the custom command (`Target`); a blank value removes it.
    pub fn set_execution(&mut self, value: String) -> (previous: Option<String>)
        requires
            old(self).wf(),
        ensures
            final(self).wf(),
            final(self)@ == spec_set_field(old(self)@, execution_section(), "Target"@, value@),
            previous matches Some(p) ==> spec_get(old(self)@, execution_section(), "Target"@) == Some(p@),
            previous is None ==> spec_get(old(self)@, execution_section(), "Target"@) is None,
    {
        self.set_field("[.CustomExecution]", "Target", value)
    }

    /// The icon of the folder (`IconResource`), such as `shell32.dll,4`.
    pub fn icon_resource(&self) -> (value: Option<String>)
        ensures
            value matches Some(v) ==> spec_get(self@, shell_section(), "IconResource"@) == Some(v@),
            value is None ==> spec_get(self@, shell_section(), "IconResource"@) is None,
    {
        self.get("[.ShellClassInfo]", "IconResource")
    }

    /// Sets the icon (`IconResource`); a blank value removes it.
    pub fn set_icon_resource(&mut self, value: String) -> (previous: Option<String>)
        requires
            old(self).wf(),
        ensures
            final(self).wf(),
            final(self)@ == spec_set_field(old(self)@, shell_section(), "IconResource"@, value@),
            previous matches Some(p) ==> spec_get(old(self)@, shell_section(), "IconResource"@) == Some(p@),
            previous is None ==> spec_get(old(self)@, shell_section(), "IconResource"@) is None,
    {
        self.set_field("[.ShellClassInfo]", "IconResource", value)
    }

    /// The name shown for the folder (`LocalizedResourceName`).
    pub fn localized_resource_name(&self) -> (value: Option<String>)
        ensures
            value matches Some(v) ==> spec_get(self@, shell_section(), "LocalizedResourceName"@) == Some(v@),
            value is None ==> spec_get(self@, shell_section(), "LocalizedResourceName"@) is None,
    {
        self.get("[.ShellClassInfo]", "LocalizedResourceName")
    }

    /// Sets the name shown for the folder; a blank value removes it.
    pub fn set_localized_resource_name(&mut self, value: String) -> (previous: Option<String>)
        requires
            old(self).wf(),
        ensures
            final(self).wf(),
            final(self)@ == spec_set_field(old(self)@, shell_section(), "LocalizedResourceName"@, value@),
            previous matches Some(p) ==> spec_get(old(self)@, shell_section(), "LocalizedResourceName"@) == Some(p@),
            previous is None ==> spec_get(old(self)@, shell_section(), "LocalizedResourceName"@) is None,
    {
        self.set_field("[.ShellClassInfo]", "LocalizedResourceName", value)
    }

    /// Whether running the custom command asks for confirmation first; `None`
    /// where the flag is not stored. Any stored value but `0` is on.
    pub fn confirm_execution(&self) -> (confirm: Option<bool>)
        ensures
            confirm == spec_confirm(self@),
    {
        match self.get("[.CustomExecution]", "ConfirmExecution") {
            Some(v) => {
                let cs = chars_of(v.as_str());
                let zero = cs.len() == 1 && cs[0] == '0';
                proof {
                    if zero {
                        assert(cs@ =~= seq!['0']);
                    } else if cs@ == seq!['0'] {
                        assert(cs@[0] == '0');
                    }
                }
                Some(!zero)
            },
            None => None,
        }
    }

    /// Stores the confirmation flag as `1` or `0`, giving back the stored value.
    pub fn set_confirm_execution(&mut self, value: bool) -> (previous: Option<String>)
        requires
            old(self).wf(),
        ensures
            final(self).wf(),
            final(self)@ == spec_set(
                old(self)@,
                execution_section(),
                "ConfirmExecution"@,
                if value {
                    "1"@
                } else {
                    "0"@
                },
            ),
            previous matches Some(p) ==> spec_get(old(self)@, execution_section(), "ConfirmExecution"@) == Some(p@),
            previous is None ==> spec_get(old(self)@, execution_section(), "ConfirmExecution"@) is None,
    {
        self.set("[.CustomExecution]", "ConfirmExecution", if value { "1" } else { "0" })
    }

    /// Makes the folder's directory class the one that runs the custom command.
    pub fn set_directory_class(&mut self) -> (previous: Option<String>)
        requires
            old(self).wf(),
        ensures
            final(self).wf(),
            final(self)@ == spec_set(old(self)@, shell_section(), "DirectoryClass"@, DIRECTORY_CLASS@),
            previous matches Some(p) ==> spec_get(old(self)@, shell_section(), "DirectoryClass"@) == Some(p@),
            previous is None ==> spec_get(old(self)@, shell_section(), "DirectoryClass"@) is None,
    {
        self.set("[.ShellClassInfo]", "DirectoryClass", DIRECTORY_CLASS)
    }

    /// The arguments of the custom command (`Args`), with `path` put in for `%1`.
    pub fn args(&self, path: &str) -> (args: Option<Vec<String>>)
        ensures
            args matches Some(a) ==> exists|line: Seq<char>|
                spec_get(self@, execution_section(), "Args"@) == Some(line) && views(a@)
                    == spec_parse_args(line, path@),
            args is None ==> spec_get(self@, execution_section(), "Args"@) is None,
    {
        match self.get("[.CustomExecution]", "Args") {
            Some(line) => Some(parse_args(line.as_str(), path)),
            None => None,
        }
    }

    /// Stores the arguments of the custom command as one line.
    pub fn set_args(&mut self, args: &[String])
        requires
            old(self).wf(),
        ensures
            final(self).wf(),
            final(self)@ == spec_set(old(self)@, execution_section(), "Args"@, spec_join_args(views(args@))),
    {
        let line = join_args(args);
        self.set("[.CustomExecution]", "Args", line.as_str());
    }
}

} // verus!
