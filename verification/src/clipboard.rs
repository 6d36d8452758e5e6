//! Clipboard support: which clipboard mechanisms exist, which command each
//! one runs, and in which order they are tried on a given platform.
//!
//! Running the chosen command is the caller's job; this module holds the
//! selection policy and the command table.

use vstd::prelude::*;
use crate::utils::str_eq;

verus! {

/// Error type for clipboard operations.
#[derive(Debug, Clone)]
pub enum ClipboardError {
    /// The command is not available on the system
    CommandNotFound(String),
    /// Failed to execute the command
    CommandFailed(String),
    /// No suitable clipboard mechanism was found
    NoClipboardFound,
    /// An I/O error, described
    Io(String),
}

impl ClipboardError {
    /// A human-readable description of the error.
    pub fn message(&self) -> (r: String)
        ensures
            (self matches ClipboardError::CommandNotFound(c) ==> r@ == "Command not found: "@
                + c@),
            (self matches ClipboardError::CommandFailed(c) ==> r@ == "Command failed: "@ + c@),
            (self is NoClipboardFound ==> r@ == "No suitable clipboard mechanism found"@),
            (self matches ClipboardError::Io(m) ==> r@ == "IO error: "@ + m@),
    {
        match self {
            ClipboardError::CommandNotFound(c) => {
                let mut s = "Command not found: ".to_owned();
                s.append(c.as_str());
                s
            },
            ClipboardError::CommandFailed(c) => {
                let mut s = "Command failed: ".to_owned();
                s.append(c.as_str());
                s
            },
            ClipboardError::NoClipboardFound => "No suitable clipboard mechanism found".to_owned(),
            ClipboardError::Io(m) => {
                let mut s = "IO error: ".to_owned();
                s.append(m.as_str());
                s
            },
        }
    }
}

/// Trait for clipboard operations; implemented by the callers that run
/// clipboard commands.
pub trait Clipboard {
    /// Copy text to the clipboard.
    fn copy_to_clipboard(&self, text: &str) -> Result<(), ClipboardError>;
}

/// Available clipboard mechanisms.
#[derive(Debug, Clone, Copy, PartialEq, Eq, Structural)]
pub enum ClipboardProvider {
    /// tmux clipboard
    Tmux,
    /// X11 clipboard with xclip
    Xclip,
    /// X11 clipboard with xsel
    Xsel,
    /// Wayland clipboard
    Wayland,
    /// macOS clipboard
    MacOS,
    /// Windows clipboard (via WSL)
    Wsl,
    /// Termux clipboard
    Termux,
}

/// The command a provider runs; text is piped to its standard input.
pub open spec fn spec_provider_command(p: ClipboardProvider) -> Seq<char> {
    match p {
        ClipboardProvider::Tmux => "tmux"@,
        ClipboardProvider::Xclip => "xclip"@,
        ClipboardProvider::Xsel => "xsel"@,
        ClipboardProvider::Wayland => "wl-copy"@,
        ClipboardProvider::MacOS => "pbcopy"@,
        ClipboardProvider::Wsl => "clip.exe"@,
        ClipboardProvider::Termux => "termux-clipboard-set"@,
    }
}

impl ClipboardProvider {
    /// The command this provider runs.
    pub fn command(&self) -> (r: &'static str)
        ensures
            r@ == spec_provider_command(*self),
    {
        match self {
            ClipboardProvider::Tmux => "tmux",
            ClipboardProvider::Xclip => "xclip",
            ClipboardProvider::Xsel => "xsel",
            ClipboardProvider::Wayland => "wl-copy",
            ClipboardProvider::MacOS => "pbcopy",
            ClipboardProvider::Wsl => "clip.exe",
            ClipboardProvider::Termux => "termux-clipboard-set",
        }
    }
}

/// Facts about the system, probed by the caller: the platform name and
/// which clipboard commands are available.
#[derive(Debug, Clone)]
pub struct ClipboardProbe {
    /// Platform name: `macos`, `windows`, `wsl`, `linux`, `android` or other
    pub platform: String,
    /// tmux is installed and a session is reachable
    pub tmux_ready: bool,
    /// `pbcopy` is available
    pub has_pbcopy: bool,
    /// `clip.exe` is available
    pub has_clip_exe: bool,
    /// `wl-copy` is available
    pub has_wl_copy: bool,
    /// `xsel` is available
    pub has_xsel: bool,
    /// `xclip` is available
    pub has_xclip: bool,
    /// `termux-clipboard-set` is available
    pub has_termux: bool,
}

/// The providers to try, in order of preference: tmux first when reachable,
/// then the platform's own mechanisms.
pub open spec fn spec_providers(p: ClipboardProbe) -> Seq<ClipboardProvider> {
    (if p.tmux_ready {
        seq![ClipboardProvider::Tmux]
    } else {
        Seq::<ClipboardProvider>::empty()
    }) + (if p.platform@ == "macos"@ {
        if p.has_pbcopy {
            seq![ClipboardProvider::MacOS]
        } else {
            Seq::<ClipboardProvider>::empty()
        }
    } else if p.platform@ == "windows"@ || p.platform@ == "wsl"@ {
        if p.has_clip_exe {
            seq![ClipboardProvider::Wsl]
        } else {
            Seq::<ClipboardProvider>::empty()
        }
    } else if p.platform@ == "linux"@ {
        (if p.has_wl_copy {
            seq![ClipboardProvider::Wayland]
        } else {
            Seq::<ClipboardProvider>::empty()
        }) + (if p.has_xsel {
            seq![ClipboardProvider::Xsel]
        } else {
            Seq::<ClipboardProvider>::empty()
        }) + (if p.has_xclip {
            seq![ClipboardProvider::Xclip]
        } else {
            Seq::<ClipboardProvider>::empty()
        })
    } else if p.platform@ == "android"@ {
        if p.has_termux {
            seq![ClipboardProvider::Termux]
        } else {
            Seq::<ClipboardProvider>::empty()
        }
    } else {
        Seq::<ClipboardProvider>::empty()
    })
}

/// Determine which clipboard providers to try, in order.
pub fn determine_clipboard_providers(probe: &ClipboardProbe) -> (r: Vec<ClipboardProvider>)
    ensures
        r@ == spec_providers(*probe),
{
    let mut providers: Vec<ClipboardProvider> = Vec::new();
    if probe.tmux_ready {
        providers.push(ClipboardProvider::Tmux);
    }
    if str_eq(probe.platform.as_str(), "macos") {
        if probe.has_pbcopy {
            providers.push(ClipboardProvider::MacOS);
        }
    } else if str_eq(probe.platform.as_str(), "windows") || str_eq(probe.platform.as_str(), "wsl") {
        if probe.has_clip_exe {
            providers.push(ClipboardProvider::Wsl);
        }
    } else if str_eq(probe.platform.as_str(), "linux") {
        if probe.has_wl_copy {
            providers.push(ClipboardProvider::Wayland);
        }
        if probe.has_xsel {
            providers.push(ClipboardProvider::Xsel);
        }
        if probe.has_xclip {
            providers.push(ClipboardProvider::Xclip);
        }
    } else if str_eq(probe.platform.as_str(), "android") {
        if probe.has_termux {
            providers.push(ClipboardProvider::Termux);
        }
    }
    proof {
        assert(providers@ =~= spec_providers(*probe));
    }
    providers
}

} // verus!
