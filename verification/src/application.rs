//! Application use cases: one struct per user-facing operation, wired to the
//! ports. Validation and decision logic is the library's; reading and
//! writing state goes through the injected port implementations.

use vstd::prelude::*;
use vstd::string::{StrSliceExecFns, StringExecFns};
use crate::domain::{has_incomplete_child, name_is_under, spec_valid_name, validate_yak_name};
use crate::errors::YakError;
use crate::listing::{Shown, render_yak_list};
use crate::ports::{LogPort, OutputPort, StoragePort, SyncPort};
use crate::text::str_eq;

verus! {

/// Create a new yak.
pub struct AddYak<'a, S: StoragePort, O: OutputPort> {
    storage: &'a S,
    output: &'a O,
}

impl<'a, S: StoragePort, O: OutputPort> AddYak<'a, S, O> {
    pub fn new(storage: &'a S, output: &'a O) -> Self {
        AddYak { storage, output }
    }

    /// Validate the name, create the yak, and report success. An invalid
    /// name is always rejected before the storage is touched.
    pub fn execute(&self, name: &str) -> (r: Result<(), YakError>)
        ensures
            !spec_valid_name(name@) ==> r is Err,
    {
        match validate_yak_name(name) {
            Err(detail) => {
                return Err(YakError::Invalid { detail });
            },
            Ok(()) => {},
        }
        match self.storage.create_yak(name) {
            Err(e) => {
                return Err(e);
            },
            Ok(()) => {},
        }
        let mut m = "Added yak '".to_owned();
        m.append(name);
        m.append("'");
        self.output.success(m.as_str());
        Ok(())
    }
}

/// Mark a yak as done or not done.
pub struct DoneYak<'a, S: StoragePort, O: OutputPort> {
    storage: &'a S,
    output: &'a O,
}

impl<'a, S: StoragePort, O: OutputPort> DoneYak<'a, S, O> {
    pub fn new(storage: &'a S, output: &'a O) -> Self {
        DoneYak { storage, output }
    }

    /// Resolve the name, refuse to finish a yak with unfinished children,
    /// then flip the marker and report.
    pub fn execute(&self, name: &str, undo: bool) -> Result<(), YakError> {
        let resolved = match self.storage.find_yak(name) {
            Err(e) => {
                return Err(e);
            },
            Ok(n) => n,
        };
        if !undo {
            let all = match self.storage.list_yaks() {
                Err(e) => {
                    return Err(e);
                },
                Ok(v) => v,
            };
            if has_incomplete_child(&all, resolved.as_str()) {
                return Err(YakError::IncompleteChildren { name: resolved });
            }
        }
        match self.storage.mark_done(resolved.as_str(), !undo) {
            Err(e) => {
                return Err(e);
            },
            Ok(()) => {},
        }
        let mut m = "Marked '".to_owned();
        m.append(resolved.as_str());
        if undo {
            m.append("' as not done");
        } else {
            m.append("' as done");
        }
        self.output.success(m.as_str());
        Ok(())
    }

    /// Resolve the name and mark it done together with everything below it.
    pub fn execute_recursive(&self, name: &str) -> Result<(), YakError> {
        let resolved = match self.storage.find_yak(name) {
            Err(e) => {
                return Err(e);
            },
            Ok(n) => n,
        };
        let all = match self.storage.list_yaks() {
            Err(e) => {
                return Err(e);
            },
            Ok(v) => v,
        };
        let mut i: usize = 0;
        while i < all.len()
            decreases all@.len() - i,
        {
            let is_target = str_eq(all[i].name.as_str(), resolved.as_str()) || name_is_under(
                all[i].name.as_str(),
                resolved.as_str(),
            );
            if is_target {
                match self.storage.mark_done(all[i].name.as_str(), true) {
                    Err(e) => {
                        return Err(e);
                    },
                    Ok(()) => {},
                }
            }
            i = i + 1;
        }
        Ok(())
    }
}

/// Display all yaks as a hierarchy.
pub struct ListYaks<'a, S: StoragePort, O: OutputPort> {
    storage: &'a S,
    output: &'a O,
}

impl<'a, S: StoragePort, O: OutputPort> ListYaks<'a, S, O> {
    pub fn new(storage: &'a S, output: &'a O) -> Self {
        ListYaks { storage, output }
    }

    /// Render the listing in the requested format (`markdown`/`md` or
    /// `plain`/`raw`), optionally filtered to `done` or `not-done` rows.
    pub fn execute(&self, format: &str, only: Option<&str>) -> Result<(), YakError> {
        let yaks = match self.storage.list_yaks() {
            Err(e) => {
                return Err(e);
            },
            Ok(v) => v,
        };
        let markdown = !(str_eq(format, "plain") || str_eq(format, "raw"));
        let announce_empty = str_eq(format, "markdown") || str_eq(format, "md");
        let shown = match only {
            Some(f) => {
                if str_eq(f, "done") {
                    Shown::DoneOnly
                } else if str_eq(f, "not-done") {
                    Shown::OpenOnly
                } else {
                    Shown::All
                }
            },
            None => Shown::All,
        };
        if yaks.len() == 0 {
            if announce_empty {
                self.output.info("You have no yaks. Are you done?");
            }
            return Ok(());
        }
        let lines = render_yak_list(&yaks, markdown, &shown);
        let mut i: usize = 0;
        while i < lines.len()
            decreases lines@.len() - i,
        {
            self.output.info(lines[i].as_str());
            i = i + 1;
        }
        if lines.len() == 0 && announce_empty {
            self.output.info("You have no yaks. Are you done?");
        }
        Ok(())
    }
}

/// Rename or relocate a yak.
pub struct MoveYak<'a, S: StoragePort, O: OutputPort> {
    storage: &'a S,
    output: &'a O,
}

impl<'a, S: StoragePort, O: OutputPort> MoveYak<'a, S, O> {
    pub fn new(storage: &'a S, output: &'a O) -> Self {
        MoveYak { storage, output }
    }

    /// Validate the target name, check the source exists, and rename. An
    /// invalid target is always rejected before the storage is touched.
    pub fn execute(&self, from: &str, to: &str) -> (r: Result<(), YakError>)
        ensures
            !spec_valid_name(to@) ==> r is Err,
    {
        match validate_yak_name(to) {
            Err(detail) => {
                return Err(YakError::Invalid { detail });
            },
            Ok(()) => {},
        }
        match self.storage.get_yak(from) {
            Err(e) => {
                return Err(e);
            },
            Ok(_) => {},
        }
        match self.storage.rename_yak(from, to) {
            Err(e) => {
                return Err(e);
            },
            Ok(()) => {},
        }
        let mut m = "Moved '".to_owned();
        m.append(from);
        m.append("' to '");
        m.append(to);
        m.append("'");
        self.output.success(m.as_str());
        Ok(())
    }
}

/// Remove all finished yaks.
pub struct PruneYaks<'a, S: StoragePort, O: OutputPort, L: LogPort> {
    storage: &'a S,
    output: &'a O,
    log: &'a L,
}

impl<'a, S: StoragePort, O: OutputPort, L: LogPort> PruneYaks<'a, S, O, L> {
    pub fn new(storage: &'a S, output: &'a O, log: &'a L) -> Self {
        PruneYaks { storage, output, log }
    }

    /// Delete every finished yak, recording each removal; silently does
    /// nothing when no yak is finished.
    pub fn execute(&self) -> Result<(), YakError> {
        let yaks = match self.storage.list_yaks() {
            Err(e) => {
                return Err(e);
            },
            Ok(v) => v,
        };
        let mut i: usize = 0;
        while i < yaks.len()
            decreases yaks@.len() - i,
        {
            if yaks[i].done {
                match self.storage.delete_yak(yaks[i].name.as_str()) {
                    Err(e) => {
                        return Err(e);
                    },
                    Ok(()) => {},
                }
                let mut m = "rm ".to_owned();
                m.append(yaks[i].name.as_str());
                match self.log.log_command(m.as_str()) {
                    Err(e) => {
                        return Err(e);
                    },
                    Ok(()) => {},
                }
            }
            i = i + 1;
        }
        Ok(())
    }
}

/// Delete one yak.
pub struct RemoveYak<'a, S: StoragePort, O: OutputPort, L: LogPort> {
    storage: &'a S,
    output: &'a O,
    log: &'a L,
}

impl<'a, S: StoragePort, O: OutputPort, L: LogPort> RemoveYak<'a, S, O, L> {
    pub fn new(storage: &'a S, output: &'a O, log: &'a L) -> Self {
        RemoveYak { storage, output, log }
    }

    /// Resolve the name, delete the yak, and record the removal.
    pub fn execute(&self, name: &str) -> Result<(), YakError> {
        let resolved = match self.storage.find_yak(name) {
            Err(e) => {
                return Err(e);
            },
            Ok(n) => n,
        };
        match self.storage.delete_yak(resolved.as_str()) {
            Err(e) => {
                return Err(e);
            },
            Ok(()) => {},
        }
        let mut m = "rm ".to_owned();
        m.append(resolved.as_str());
        match self.log.log_command(m.as_str()) {
            Err(e) => {
                return Err(e);
            },
            Ok(()) => {},
        }
        let mut msg = "Removed '".to_owned();
        msg.append(resolved.as_str());
        msg.append("'");
        self.output.success(msg.as_str());
        Ok(())
    }
}

/// Print a yak's context.
pub struct ShowContext<'a, S: StoragePort, O: OutputPort> {
    storage: &'a S,
    output: &'a O,
}

impl<'a, S: StoragePort, O: OutputPort> ShowContext<'a, S, O> {
    pub fn new(storage: &'a S, output: &'a O) -> Self {
        ShowContext { storage, output }
    }

    /// Print the yak's name as a header and, when it has any, a blank line
    /// followed by its context.
    pub fn execute(&self, name: &str) -> Result<(), YakError> {
        match self.storage.get_yak(name) {
            Err(e) => {
                return Err(e);
            },
            Ok(_) => {},
        }
        let context = match self.storage.read_context(name) {
            Err(_) => String::new(),
            Ok(c) => c,
        };
        self.output.info(name);
        if context.as_str().unicode_len() != 0 {
            self.output.info("");
            self.output.info(context.as_str());
        }
        Ok(())
    }
}

/// Replace a yak's context with new content.
pub struct EditContext<'a, S: StoragePort, O: OutputPort> {
    storage: &'a S,
    output: &'a O,
}

impl<'a, S: StoragePort, O: OutputPort> EditContext<'a, S, O> {
    pub fn new(storage: &'a S, output: &'a O) -> Self {
        EditContext { storage, output }
    }

    /// Resolve the name and write the new context. The caller gathers the
    /// content — from an editor or from a pipe — before calling.
    pub fn execute(&self, name: &str, content: &str) -> Result<(), YakError> {
        let resolved = match self.storage.find_yak(name) {
            Err(e) => {
                return Err(e);
            },
            Ok(n) => n,
        };
        match self.storage.write_context(resolved.as_str(), content) {
            Err(e) => {
                return Err(e);
            },
            Ok(()) => {},
        }
        Ok(())
    }
}

/// Run one synchronization round through the sync port.
pub struct SyncYaks<'a, Y: SyncPort, O: OutputPort> {
    sync: &'a Y,
    output: &'a O,
}

impl<'a, Y: SyncPort, O: OutputPort> SyncYaks<'a, Y, O> {
    pub fn new(sync: &'a Y, output: &'a O) -> Self {
        SyncYaks { sync, output }
    }

    pub fn execute(&self) -> Result<(), YakError> {
        match self.sync.sync() {
            Err(e) => {
                return Err(e);
            },
            Ok(()) => {},
        }
        Ok(())
    }
}

} // verus!
