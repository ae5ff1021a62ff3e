//! The fixed set of actions a request can be answered with, and how a request is read locally.
use vstd::prelude::*;
use crate::error::{Error, ErrorV};
use crate::request::{
    preset_of, requested_version_of, wants_current_of, wants_default_of, wants_exit_of,
    wants_help_of, wants_install_if_missing_of, wants_install_of, wants_latest_of, wants_list_of,
    wants_lts_of, wants_remote_of, wants_set_of, wants_uninstall_of, wants_use_of, Request,
};
use crate::text::{chars_of, string_from_chars, trim, trim_ws};
use crate::version::{UserVersion, UserVersionV, Version, VersionV};
use crate::words::opt_view;

verus! {

/// The two built-in presets of the interactive prompt.
#[derive(Debug, Clone, Copy, PartialEq, Eq, Structural)]
pub enum Preset {
    /// Apply the project's (or the default) Node.js version.
    SwitchEnvironment,
    /// Print the version manager's environment configuration.
    CheckEnvironment,
}

/// Whether the conversation goes on after a message.
#[derive(Debug, Clone, Copy, PartialEq, Eq, Structural)]
pub enum Flow {
    Continue,
    Exit,
}

/// An action of the version manager.
#[derive(Debug)]
#[allow(inconsistent_fields)]
pub enum Intent {
    Help,
    Exit,
    Preset(Preset),
    Install { version: Option<UserVersion>, use_after: bool },
    Use { version: Option<UserVersion>, install_if_missing: bool },
    ListLocal,
    ListRemote { lts: bool, latest: bool },
    Current,
    Default { version: Option<UserVersion> },
    Uninstall { version: UserVersion },
}

#[allow(inconsistent_fields)]
pub enum IntentV {
    Help,
    Exit,
    Preset(Preset),
    Install { version: Option<UserVersionV>, use_after: bool },
    Use { version: Option<UserVersionV>, install_if_missing: bool },
    ListLocal,
    ListRemote { lts: bool, latest: bool },
    Current,
    Default { version: Option<UserVersionV> },
    Uninstall { version: UserVersionV },
}

impl View for Intent {
    type V = IntentV;

    open spec fn view(&self) -> IntentV {
        match self {
            Intent::Help => IntentV::Help,
            Intent::Exit => IntentV::Exit,
            Intent::Preset(p) => IntentV::Preset(*p),
            Intent::Install { version, use_after } => IntentV::Install {
                version: opt_view(*version),
                use_after: *use_after,
            },
            Intent::Use { version, install_if_missing } => IntentV::Use {
                version: opt_view(*version),
                install_if_missing: *install_if_missing,
            },
            Intent::ListLocal => IntentV::ListLocal,
            Intent::ListRemote { lts, latest } => IntentV::ListRemote { lts: *lts, latest: *latest },
            Intent::Current => IntentV::Current,
            Intent::Default { version } => IntentV::Default { version: opt_view(*version) },
            Intent::Uninstall { version } => IntentV::Uninstall { version: version@ },
        }
    }
}

/// The view of an outcome.
pub open spec fn outcome(r: Result<Intent, Error>) -> Result<IntentV, ErrorV> {
    match r {
        Ok(i) => Ok(i@),
        Err(e) => Err(e@),
    }
}

/// How a request is read locally. The first of these that applies decides: a blank request is
/// refused; exit; help; a preset; uninstall (which needs a version); the default version
/// (showing it, or setting it when a version is named or setting is asked for); the current
/// version; listing (remote or installed); use that installs if missing; install (and use it
/// after, if asked); use (of the `default` alias where it speaks of the default); else the
/// request is not understood.
pub open spec fn parse_intent_of(m: Seq<char>) -> Result<IntentV, ErrorV> {
    if trim_ws(m).len() == 0 {
        Err(ErrorV::EmptyRequest)
    } else if wants_exit_of(m) {
        Ok(IntentV::Exit)
    } else if wants_help_of(m) {
        Ok(IntentV::Help)
    } else if preset_of(m) is Some {
        Ok(IntentV::Preset(preset_of(m)->0))
    } else {
        let v = requested_version_of(m);
        if wants_uninstall_of(m) {
            match v {
                Some(x) => Ok(IntentV::Uninstall { version: x }),
                None => Err(ErrorV::MissingVersion { action: "uninstall"@ }),
            }
        } else if wants_default_of(m) && !wants_use_of(m) && !wants_install_of(m) {
            if wants_set_of(m) || v is Some {
                match v {
                    Some(x) => Ok(IntentV::Default { version: Some(x) }),
                    None => Err(ErrorV::MissingVersion { action: "set the default"@ }),
                }
            } else {
                Ok(IntentV::Default { version: None })
            }
        } else if wants_current_of(m) {
            Ok(IntentV::Current)
        } else if wants_list_of(m) {
            if wants_remote_of(m) {
                Ok(IntentV::ListRemote { lts: wants_lts_of(m), latest: wants_latest_of(m) })
            } else {
                Ok(IntentV::ListLocal)
            }
        } else if wants_use_of(m) && wants_install_if_missing_of(m) {
            Ok(IntentV::Use { version: v, install_if_missing: true })
        } else if wants_install_of(m) {
            Ok(IntentV::Install { version: v, use_after: wants_use_of(m) })
        } else if wants_use_of(m) {
            Ok(
                IntentV::Use {
                    version: if wants_default_of(m) {
                        Some(UserVersionV::Full(VersionV::Alias("default"@)))
                    } else {
                        v
                    },
                    install_if_missing: wants_install_if_missing_of(m),
                },
            )
        } else {
            Err(ErrorV::UnknownRequest { message: trim_ws(m) })
        }
    }
}

/// `parse_intent`: reads a request locally.
pub fn parse_intent(message: &str) -> (r: Result<Intent, Error>)
    ensures
        outcome(r) == parse_intent_of(message@),
{
    let request = Request::new(message);
    if request.is_empty() {
        return Err(Error::EmptyRequest);
    }
    if request.wants_exit() {
        return Ok(Intent::Exit);
    }
    if request.wants_help() {
        return Ok(Intent::Help);
    }
    if let Some(preset) = request.preset() {
        return Ok(Intent::Preset(preset));
    }
    let version = request.requested_version();
    if request.wants_uninstall() {
        return match version {
            Some(version) => Ok(Intent::Uninstall { version }),
            None => Err(Error::MissingVersion { action: "uninstall" }),
        };
    }
    if request.wants_default() && !request.wants_use() && !request.wants_install() {
        if request.wants_set() || version.is_some() {
            return match version {
                Some(version) => Ok(Intent::Default { version: Some(version) }),
                None => Err(Error::MissingVersion { action: "set the default" }),
            };
        }
        return Ok(Intent::Default { version: None });
    }
    if request.wants_current() {
        return Ok(Intent::Current);
    }
    if request.wants_list() {
        if request.wants_remote() {
            return Ok(
                Intent::ListRemote { lts: request.wants_lts(), latest: request.wants_latest() },
            );
        }
        return Ok(Intent::ListLocal);
    }
    if request.wants_use() && request.wants_install_if_missing() {
        return Ok(Intent::Use { version, install_if_missing: true });
    }
    if request.wants_install() {
        return Ok(Intent::Install { version, use_after: request.wants_use() });
    }
    if request.wants_use() {
        let version = if request.wants_default() {
            Some(UserVersion::Full(Version::Alias(string_from_chars(&chars_of("default")))))
        } else {
            version
        };
        return Ok(
            Intent::Use { version, install_if_missing: request.wants_install_if_missing() },
        );
    }
    let trimmed = trim(&chars_of(request.original()));
    Err(Error::UnknownRequest { message: string_from_chars(&trimmed) })
}

} // verus!
