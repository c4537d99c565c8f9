//! `run_tcl`: what a request resolves to before `gw_sh` is run.

use vstd::prelude::*;
use vstd::string::StringExecFns;
use crate::error::{ToolError, effective_timeout};
use crate::flash::opt_view;
use crate::paths::{
    effective_ide_path, gowin_paths, join_path, spec_gowin_paths, win_join, joinable_base,
    lemma_join_keeps_joinable, lemma_simple_names,
};

verus! {

/// Where the Tcl script comes from.
pub enum TclSource {
    /// A script file, as named by the request (relative to the project root
    /// unless absolute).
    File(String),
    /// Inline Tcl code, to be written to a temporary file first.
    Inline(String),
}

/// A `run_tcl` request, resolved.
pub struct RunTclPlan {
    pub gowin_ide_path: String,
    pub ide_base: String,
    pub gw_sh: String,
    /// The directory `gw_sh` runs in: `<ide_base>\bin`.
    pub ide_bin_dir: String,
    pub programmer_base: String,
    pub timeout_sec: u64,
    pub source: TclSource,
}

/// The install directory a request names, or the default one.
pub open spec fn spec_ide_path(requested: Option<Seq<char>>) -> Seq<char> {
    match requested {
        Some(p) => p,
        None => "C:\\Gowin\\Gowin_V1.9.11.03_Education_x64"@,
    }
}

/// Resolves a `run_tcl` request: a zero timeout is refused first, then a request
/// with neither a script path nor inline code; a script path wins over inline
/// code; the timeout defaults to 1800 s. The install paths are stated for an
/// install directory whose joins [`win_join`] describes.
pub fn plan_run_tcl(
    gowin_ide_path: Option<&str>,
    timeout_sec: Option<u64>,
    tcl_path: Option<&str>,
    tcl_inline: Option<&str>,
) -> (r: Result<RunTclPlan, ToolError>)
    ensures
        timeout_sec == Some(0u64) ==> r == Err::<RunTclPlan, ToolError>(ToolError::TimeoutZero),
        timeout_sec != Some(0u64) && tcl_path is None && tcl_inline is None ==> r == Err::<
            RunTclPlan,
            ToolError,
        >(ToolError::MissingTclSource),
        timeout_sec != Some(0u64) && (tcl_path is Some || tcl_inline is Some) ==> r is Ok,
        r matches Ok(p) ==> {
            let ide = spec_ide_path(opt_view(gowin_ide_path));
            &&& p.gowin_ide_path@ == ide
            &&& joinable_base(ide) ==> {
                &&& p.ide_base@ == spec_gowin_paths(ide).0
                &&& p.gw_sh@ == spec_gowin_paths(ide).1
                &&& p.ide_bin_dir@ == win_join(spec_gowin_paths(ide).0, "bin"@)
                &&& p.programmer_base@ == win_join(ide, "Programmer"@)
            }
            &&& p.timeout_sec == match timeout_sec {
                Some(t) => t,
                None => 1800u64,
            }
            &&& match (tcl_path, tcl_inline) {
                (Some(f), _) => p.source matches TclSource::File(s) && s@ == f@,
                (None, Some(code)) => p.source matches TclSource::Inline(s) && s@ == code@,
                (None, None) => false,
            }
        },
{
    let ide = effective_ide_path(gowin_ide_path);
    let (ide_base, gw_sh, _programmer_cli) = gowin_paths(ide.as_str());
    let ide_bin_dir = join_path(ide_base.as_str(), "bin");
    proof {
        if joinable_base(ide@) {
            lemma_simple_names();
            lemma_join_keeps_joinable(ide@, "IDE"@);
            lemma_join_keeps_joinable(ide@, "Programmer"@);
        }
    }
    let timeout = match effective_timeout(timeout_sec, 1800) {
        Ok(t) => t,
        Err(e) => {
            return Err(e);
        },
    };
    let source = match tcl_path {
        Some(f) => TclSource::File(String::from_str(f)),
        None => match tcl_inline {
            Some(code) => TclSource::Inline(String::from_str(code)),
            None => {
                return Err(ToolError::MissingTclSource);
            },
        },
    };
    let programmer_base = join_path(ide.as_str(), "Programmer");
    Ok(
        RunTclPlan {
            gowin_ide_path: ide,
            ide_base,
            gw_sh,
            ide_bin_dir,
            programmer_base,
            timeout_sec: timeout,
            source,
        },
    )
}

/// The program and timeout of a `list_cables` request: the install directory
/// with `programmer_cli.exe` (stated for an install directory whose joins
/// [`win_join`] describes); a zero timeout is refused, the default is 20 s.
pub fn plan_list_cables(gowin_ide_path: Option<&str>, timeout_sec: Option<u64>) -> (r: Result<
    (String, String, u64),
    ToolError,
>)
    ensures
        timeout_sec == Some(0u64) ==> r == Err::<(String, String, u64), ToolError>(
            ToolError::TimeoutZero,
        ),
        timeout_sec != Some(0u64) ==> r is Ok,
        r matches Ok(p) ==> {
            let ide = spec_ide_path(opt_view(gowin_ide_path));
            &&& p.0@ == ide
            &&& joinable_base(ide) ==> p.1@ == spec_gowin_paths(ide).2
            &&& p.2 == match timeout_sec {
                Some(t) => t,
                None => 20u64,
            }
        },
{
    let ide = effective_ide_path(gowin_ide_path);
    let timeout = match effective_timeout(timeout_sec, 20) {
        Ok(t) => t,
        Err(e) => {
            return Err(e);
        },
    };
    let (_ide_base, _gw_sh, programmer_cli) = gowin_paths(ide.as_str());
    Ok((ide, programmer_cli, timeout))
}

} // verus!
