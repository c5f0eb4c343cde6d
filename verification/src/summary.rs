//! The short account of an ini file that the `show` command prints.
use vstd::prelude::*;
use crate::fields::spec_confirm;
use crate::format::{execution_section, shell_section};
use crate::ini::{spec_get, Ini};
use crate::tags::spec_tags;
use crate::text::views;

verus! {

/// What the `show` command tells of a folder.
pub struct Summary {
    /// The name shown for the folder.
    pub localized_resource_name: Option<String>,
    /// The tip shown on hovering.
    pub info_tip: Option<String>,
    /// The icon.
    pub icon_resource: Option<String>,
    /// The tags, where the folder has them.
    pub tags: Option<Vec<String>>,
    /// The custom command.
    pub execution: Option<String>,
    /// Whether the custom command is confirmed first; off where the flag is not stored.
    pub confirm: bool,
}

/// Whether an optional string holds the value that an ini file gives a key.
pub open spec fn holds(o: Option<String>, v: Option<Seq<char>>) -> bool {
    match o {
        Some(s) => v == Some(s@),
        None => v is None,
    }
}

impl Ini {
    /// The account of the file that the `show` command prints.
    pub fn summary(&self) -> (s: Summary)
        ensures
            holds(s.localized_resource_name, spec_get(self@, shell_section(), "LocalizedResourceName"@)),
            holds(s.info_tip, spec_get(self@, shell_section(), "InfoTip"@)),
            holds(s.icon_resource, spec_get(self@, shell_section(), "IconResource"@)),
            holds(s.execution, spec_get(self@, execution_section(), "Target"@)),
            s.tags matches Some(t) ==> spec_tags(self@) == Some(views(t@)),
            s.tags is None ==> spec_tags(self@) is None,
            s.confirm == (spec_confirm(self@) == Some(true)),
    {
        Summary {
            localized_resource_name: self.localized_resource_name(),
            info_tip: self.info_tip(),
            icon_resource: self.icon_resource(),
            tags: self.tags(),
            execution: self.execution(),
            confirm: match self.confirm_execution() {
                Some(b) => b,
                None => false,
            },
        }
    }
}

} // verus!
