//! The refusals of the tools' requests.

use vstd::prelude::*;

verus! {

/// Why a tool request is refused before anything is run; each is answered
/// as an invalid-parameters error.
#[derive(Debug, PartialEq, Eq, Structural, Clone, Copy)]
pub enum ToolError {
    /// `timeout_sec` is 0, which would time out at once.
    TimeoutZero,
    /// `run_tcl` got neither `tcl_path` nor `tcl_inline`.
    MissingTclSource,
    /// `program_fs` got no `fs_file_path`.
    MissingFsFilePath,
    /// `program_fs` got no `device`.
    MissingDevice,
}

/// The text that answers each refusal.
pub open spec fn spec_error_message(e: ToolError) -> Seq<char> {
    match e {
        ToolError::TimeoutZero => "timeout_sec は 1 以上を指定してください（0 は即タイムアウトになります）"@,
        ToolError::MissingTclSource => "tcl_path と tcl_inline のどちらも未指定です。Tcl ファイルパス (tcl_path) またはインライン Tcl コード (tcl_inline) のいずれかを指定してください"@,
        ToolError::MissingFsFilePath => "fs_file_path を指定してください（例: fpgaOscillator/impl/pnr/fpgaOscillator.fs）"@,
        ToolError::MissingDevice => "device を指定してください（例: GW1N-9C, GW2A-LV18PG256C8/I7, GW5A-25A）。board の chip 名に合わせてください"@,
    }
}

impl ToolError {
    /// The text that answers the refusal.
    pub fn message(&self) -> (r: String)
        ensures
            r@ == spec_error_message(*self),
    {
        match self {
            ToolError::TimeoutZero => String::from_str("timeout_sec は 1 以上を指定してください（0 は即タイムアウトになります）"),
            ToolError::MissingTclSource => String::from_str("tcl_path と tcl_inline のどちらも未指定です。Tcl ファイルパス (tcl_path) またはインライン Tcl コード (tcl_inline) のいずれかを指定してください"),
            ToolError::MissingFsFilePath => String::from_str("fs_file_path を指定してください（例: fpgaOscillator/impl/pnr/fpgaOscillator.fs）"),
            ToolError::MissingDevice => String::from_str("device を指定してください（例: GW1N-9C, GW2A-LV18PG256C8/I7, GW5A-25A）。board の chip 名に合わせてください"),
        }
    }
}

/// The timeout of a request: the requested one, else the tool's default; 0 is refused.
pub fn effective_timeout(requested: Option<u64>, default_sec: u64) -> (r: Result<u64, ToolError>)
    ensures
        r == match requested {
            Some(0) => Err(ToolError::TimeoutZero),
            Some(t) => Ok(t),
            None => if default_sec == 0 {
                Err(ToolError::TimeoutZero)
            } else {
                Ok(default_sec)
            },
        },
{
    let t = match requested {
        Some(t) => t,
        None => default_sec,
    };
    if t == 0 {
        Err(ToolError::TimeoutZero)
    } else {
        Ok(t)
    }
}

} // verus!
