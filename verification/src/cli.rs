//! The command line: the commands, and what each one asks to be done.
use vstd::prelude::*;
use vstd::string::*;
use crate::device::{mountpoint_for, mountpoint_spec};
use crate::text::chars_of;
use crate::paths::chars_equal;

verus! {

/// A command of the command line.
#[derive(Debug)]
pub enum Command {
    /// List the storage devices.
    Scan,
    /// Mount `device` at `/mnt/<mount_name>`; `mode` `r` mounts it read-only.
    Mount { device: String, mount_name: String, mode: String },
    /// Unmount what is mounted at `mountpoint`.
    Unmount { mountpoint: String },
    /// Serve `/mnt/<mount_name>`; `mode` `r` refuses uploads; `no_auth` turns the
    /// access token off.
    Serve { mount_name: String, mode: String, no_auth: bool },
}

/// The parsed command line.
#[derive(Debug)]
pub struct Cli {
    pub command: Command,
}

/// What a command asks to be done.
#[derive(Debug)]
pub enum Action {
    /// List the storage devices.
    Scan,
    /// Mount `device` at `mountpoint`.
    Mount { device: String, mountpoint: String, read_only: bool },
    /// Unmount `mountpoint`.
    Unmount { mountpoint: String },
    /// Serve the directory `root`.
    Serve { root: String, read_only: bool, no_auth: bool },
}

/// A mode means read-only exactly when it is `r`.
pub open spec fn read_only_mode(mode: Seq<char>) -> bool {
    mode == "r"@
}

fn is_read_only(mode: &String) -> (r: bool)
    ensures
        r == read_only_mode(mode@),
{
    chars_equal(&chars_of(mode.as_str()), &chars_of("r"))
}

impl Cli {
    /// What the command line asks to be done.
    pub fn action(&self) -> (a: Action)
        ensures
            self.command is Scan ==> a is Scan,
            self.command matches Command::Mount { device, mount_name, mode } ==> a matches Action::Mount {
                device: d,
                mountpoint: m,
                read_only: ro,
            } && d@ == device@ && m@ == mountpoint_spec(mount_name@) && ro == read_only_mode(mode@),
            self.command matches Command::Unmount { mountpoint } ==> a matches Action::Unmount {
                mountpoint: m,
            } && m@ == mountpoint@,
            self.command matches Command::Serve { mount_name, mode, no_auth } ==> a matches Action::Serve {
                root,
                read_only,
                no_auth: n,
            } && root@ == mountpoint_spec(mount_name@) && read_only == read_only_mode(mode@) && n
                == no_auth,
    {
        match &self.command {
            Command::Scan => Action::Scan,
            Command::Mount { device, mount_name, mode } => Action::Mount {
                device: device.clone(),
                mountpoint: mountpoint_for(mount_name.as_str()),
                read_only: is_read_only(mode),
            },
            Command::Unmount { mountpoint } => Action::Unmount { mountpoint: mountpoint.clone() },
            Command::Serve { mount_name, mode, no_auth } => Action::Serve {
                root: mountpoint_for(mount_name.as_str()),
                read_only: is_read_only(mode),
                no_auth: *no_auth,
            },
        }
    }
}

} // verus!
