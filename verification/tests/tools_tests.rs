use std::path::PathBuf;

use gw_synth_flash_mcp::cable::CableInfo;
use gw_synth_flash_mcp::env::{gw_sh_env, run_tcl_env, EnvMap};
use gw_synth_flash_mcp::error::{effective_timeout, ToolError};
use gw_synth_flash_mcp::flash::{selected_cable, validate_program_fs, FlashSession};
use gw_synth_flash_mcp::paths::{
    choose_project_root, first_marked_dir, gowin_paths, is_project_marker, join_path, log_file_names,
    resolve_under, safe_file_stem, ProjectRootSource,
};
use gw_synth_flash_mcp::process::{combine_output, exit_code_of};
use gw_synth_flash_mcp::scan::{list_cables_arg_candidates, CableScan};
use gw_synth_flash_mcp::tcl::{plan_list_cables, plan_run_tcl, TclSource};

#[test]
fn list_cables_arg_candidates_includes_scan_cables() {
    let candidates = list_cables_arg_candidates();
    let joined: Vec<String> = candidates.iter().map(|argv| argv.join(" ")).collect();
    assert!(
        joined.iter().any(|c| c.contains("scan-cables")),
        "--scan-cables must be in candidate list: {:?}",
        joined
    );
}

#[test]
fn list_cables_arg_candidates_non_empty() {
    let candidates = list_cables_arg_candidates();
    assert!(!candidates.is_empty(), "candidate list must not be empty");
    for c in &candidates {
        assert!(!c.is_empty(), "empty candidate in {:?}", candidates);
        for arg in c {
            assert!(!arg.trim().is_empty(), "empty arg in {:?}", c);
        }
    }
}

#[test]
fn list_cables_arg_candidates_order() {
    let candidates = list_cables_arg_candidates();
    assert_eq!(candidates.len(), 11);
    assert_eq!(candidates[0], vec!["--scan-cables".to_string()]);
    assert_eq!(candidates[10], vec!["--enumerate".to_string()]);
}

#[test]
fn gowin_paths_windows_layout() {
    let (ide_base, gw_sh, programmer_cli) = gowin_paths(r"C:\Gowin\Gowin_V1.9.11.03_Education_x64");
    assert_eq!(PathBuf::from(ide_base), PathBuf::from(r"C:\Gowin\Gowin_V1.9.11.03_Education_x64\IDE"));
    assert_eq!(
        PathBuf::from(gw_sh),
        PathBuf::from(r"C:\Gowin\Gowin_V1.9.11.03_Education_x64\IDE\bin\gw_sh.exe")
    );
    assert_eq!(
        PathBuf::from(programmer_cli),
        PathBuf::from(r"C:\Gowin\Gowin_V1.9.11.03_Education_x64\Programmer\bin\programmer_cli.exe")
    );
}

#[test]
fn join_path_separators() {
    assert_eq!(join_path(r"C:\x", "IDE"), r"C:\x\IDE");
    assert_eq!(join_path(r"C:\x\", "IDE"), r"C:\x\IDE");
    assert_eq!(join_path("C:/x/", "IDE"), "C:/x/IDE");
    assert_eq!(join_path("C:", "IDE"), "C:IDE");
    assert_eq!(join_path("", "IDE"), "IDE");
}

#[test]
fn safe_file_stem_replaces_other_characters() {
    assert_eq!(safe_file_stem("gowin.run_tcl"), "gowin.run_tcl");
    assert_eq!(safe_file_stem("a b/c\u{e9}-d"), "a_b_c_-d");
}

#[test]
fn log_file_names_use_stamp_and_stem() {
    let (log, meta) = log_file_names("1700000000000", "gowin.list cables");
    assert_eq!(log, "1700000000000_gowin.list_cables.log");
    assert_eq!(meta, "1700000000000_gowin.list_cables.json");
}

#[test]
fn project_root_precedence() {
    assert!(matches!(choose_project_root(Some("a"), Some("b")), ProjectRootSource::Explicit(p) if p == "a"));
    assert!(matches!(choose_project_root(None, Some(" b ")), ProjectRootSource::FromEnv(p) if p == " b "));
    assert!(matches!(choose_project_root(None, Some("   ")), ProjectRootSource::Detect));
    assert!(matches!(choose_project_root(None, None), ProjectRootSource::Detect));
}

#[test]
fn gw_sh_env_values() {
    let env = gw_sh_env(r"C:\G\IDE", r"C:\G\Programmer", Some(r"C:\Windows"));
    assert_eq!(env.get("PATH"), Some(r"C:\G\IDE\bin;C:\G\Programmer\bin;C:\Windows".to_string()));
    assert_eq!(env.get("TCL_LIBRARY"), Some(r"C:\G\IDE\lib\tcl8.6".to_string()));
    assert_eq!(
        env.get("TCLLIBPATH"),
        Some(r"C:\G\IDE\lib;C:\G\IDE\lib\itcl4.0.3;C:\G\IDE\lib\tcl8.6".to_string())
    );
    assert_eq!(env.to_pairs().len(), 3);
    let bare = gw_sh_env(r"C:\G\IDE", r"C:\G\Programmer", Some(""));
    assert_eq!(bare.get("PATH"), Some(r"C:\G\IDE\bin;C:\G\Programmer\bin".to_string()));
    let none = gw_sh_env(r"C:\G\IDE", r"C:\G\Programmer", None);
    assert_eq!(none.get("PATH"), Some(r"C:\G\IDE\bin;C:\G\Programmer\bin".to_string()));
}

#[test]
fn env_insert_replaces_and_keeps_others() {
    let mut env = EnvMap::new();
    env.insert("A".to_string(), "1".to_string());
    env.insert("B".to_string(), "2".to_string());
    env.insert("A".to_string(), "3".to_string());
    assert_eq!(env.get("A"), Some("3".to_string()));
    assert_eq!(env.get("B"), Some("2".to_string()));
    assert_eq!(env.get("C"), None);
    assert_eq!(env.to_pairs().len(), 2);
}

#[test]
fn run_tcl_env_overrides_defaults() {
    let extra = vec![("PATH".to_string(), "X".to_string()), ("FOO".to_string(), "bar".to_string())];
    let env = run_tcl_env(r"C:\G\IDE", r"C:\G\Programmer", None, extra);
    assert_eq!(env.get("PATH"), Some("X".to_string()));
    assert_eq!(env.get("FOO"), Some("bar".to_string()));
    assert_eq!(env.get("TCL_LIBRARY"), Some(r"C:\G\IDE\lib\tcl8.6".to_string()));
}

#[test]
fn timeouts_and_refusals() {
    assert_eq!(effective_timeout(None, 1800), Ok(1800));
    assert_eq!(effective_timeout(Some(5), 1800), Ok(5));
    assert_eq!(effective_timeout(Some(0), 1800), Err(ToolError::TimeoutZero));
    assert!(ToolError::TimeoutZero.message().starts_with("timeout_sec"));
    assert!(ToolError::MissingTclSource.message().starts_with("tcl_path"));
    assert!(ToolError::MissingFsFilePath.message().starts_with("fs_file_path"));
    assert!(ToolError::MissingDevice.message().starts_with("device"));
}

#[test]
fn exit_codes() {
    assert_eq!(exit_code_of(Some(3), true), 3);
    assert_eq!(exit_code_of(None, true), 124);
    assert_eq!(exit_code_of(None, false), 1);
    assert_eq!(combine_output("a", "b"), "a\nb");
}

#[test]
fn run_tcl_plan() {
    let p = plan_run_tcl(None, None, Some("build.tcl"), Some("puts hi")).unwrap();
    assert_eq!(p.gowin_ide_path, r"C:\Gowin\Gowin_V1.9.11.03_Education_x64");
    assert_eq!(p.gw_sh, r"C:\Gowin\Gowin_V1.9.11.03_Education_x64\IDE\bin\gw_sh.exe");
    assert_eq!(p.ide_bin_dir, r"C:\Gowin\Gowin_V1.9.11.03_Education_x64\IDE\bin");
    assert_eq!(p.programmer_base, r"C:\Gowin\Gowin_V1.9.11.03_Education_x64\Programmer");
    assert_eq!(p.timeout_sec, 1800);
    assert!(matches!(p.source, TclSource::File(f) if f == "build.tcl"));
    let q = plan_run_tcl(Some(r"D:\G"), Some(7), None, Some("puts hi")).unwrap();
    assert_eq!(q.ide_base, r"D:\G\IDE");
    assert_eq!(q.timeout_sec, 7);
    assert!(matches!(q.source, TclSource::Inline(c) if c == "puts hi"));
    assert!(matches!(plan_run_tcl(None, None, None, None), Err(ToolError::MissingTclSource)));
    assert!(matches!(plan_run_tcl(None, Some(0), None, None), Err(ToolError::TimeoutZero)));
}

#[test]
fn list_cables_plan() {
    let (ide, cli, t) = plan_list_cables(None, None).unwrap();
    assert_eq!(ide, r"C:\Gowin\Gowin_V1.9.11.03_Education_x64");
    assert_eq!(cli, r"C:\Gowin\Gowin_V1.9.11.03_Education_x64\Programmer\bin\programmer_cli.exe");
    assert_eq!(t, 20);
    assert!(matches!(plan_list_cables(None, Some(0)), Err(ToolError::TimeoutZero)));
}

fn cable(name: &str) -> CableInfo {
    CableInfo { name: name.to_string(), index: None, location: None }
}

#[test]
fn cable_scan_stops_at_first_listing() {
    let mut scan = CableScan::new();
    assert_eq!(scan.next_command(), Some(vec!["--scan-cables".to_string()]));
    scan.record(1, vec![cable("Gowin USB Cable(FT2CH)")]);
    assert_eq!(scan.next_command(), Some(vec!["--scan".to_string()]));
    scan.record(0, vec![]);
    assert_eq!(scan.next_command(), Some(vec!["--list-cables".to_string()]));
    scan.record(0, vec![cable("USB Debugger A")]);
    assert!(scan.is_done());
    assert_eq!(scan.next_command(), None);
    let (attempts, cables) = scan.finish();
    assert_eq!(attempts.len(), 3);
    assert_eq!(attempts[2].args, vec!["--list-cables".to_string()]);
    assert_eq!(attempts[0].exit_code, 1);
    assert_eq!(cables, vec![cable("USB Debugger A")]);
}

#[test]
fn cable_scan_falls_back_to_help() {
    let mut scan = CableScan::new();
    let mut runs = 0;
    while let Some(argv) = scan.next_command() {
        runs += 1;
        if argv == vec!["--help".to_string()] {
            scan.record(2, vec![cable("Gowin USB Cable(FT2CH)")]);
        } else {
            scan.record(0, vec![]);
        }
    }
    assert_eq!(runs, 12);
    let (attempts, cables) = scan.finish();
    assert_eq!(attempts.len(), 12);
    assert_eq!(attempts[11].args, vec!["--help".to_string()]);
    assert_eq!(attempts[11].exit_code, 2);
    assert_eq!(cables, vec![cable("Gowin USB Cable(FT2CH)")]);
}

#[test]
fn program_fs_validation_order() {
    assert!(matches!(validate_program_fs(None, None, None, None, Some(0), None), Err(ToolError::MissingFsFilePath)));
    assert!(matches!(validate_program_fs(Some("a.fs"), None, None, None, Some(0), None), Err(ToolError::MissingDevice)));
    assert!(matches!(validate_program_fs(Some("a.fs"), Some("GW1NR-9C"), None, None, Some(0), None), Err(ToolError::TimeoutZero)));
    let p = validate_program_fs(Some("a.fs"), Some("GW1NR-9C"), None, None, None, None).unwrap();
    assert_eq!(p.frequency, "15MHz");
    assert_eq!(p.retries, 2);
    assert_eq!(p.timeout_sec, 120);
    assert_eq!(p.operation, "2");
    assert_eq!(selected_cable(Some("  My Cable ")), "My Cable");
    assert_eq!(selected_cable(Some("   ")), "USB Debugger A");
    assert_eq!(selected_cable(None), "USB Debugger A");
}

fn s(v: &[&str]) -> Vec<String> {
    v.iter().map(|x| x.to_string()).collect()
}

#[test]
fn flash_session_tang_nano_variants() {
    let p = validate_program_fs(Some("x.fs"), Some("GW1NR-9C"), None, Some(3), None, Some("5")).unwrap();
    assert_eq!(p.retries, 3);
    let mut session = FlashSession::new(&p, r"C:\p\x.fs", None, Some("4"), Some("273"));
    let (label, args) = session.next_command().unwrap();
    assert_eq!(label, "with_cable_index:official");
    assert_eq!(
        args,
        s(&["-r", "5", "--device", "GW1NR-9C", "--cable-index", "4", "--channel", "273", "--fsFile", r"C:\p\x.fs", "--frequency", "15MHz"])
    );
    session.record(1, vec![]);
    let (label, args) = session.next_command().unwrap();
    assert_eq!(label, "with_cable_index:--location");
    assert_eq!(args[6], "--location");
    session.record(0, vec![]);
    assert!(session.is_done());
    let (tried, selected, last_label, last_exit) = session.finish();
    assert_eq!(tried.len(), 2);
    assert_eq!(selected, "USB Debugger A");
    assert_eq!(last_label, Some("with_cable_index:--location".to_string()));
    assert_eq!(last_exit, Some(0));
}

#[test]
fn flash_session_retries_cable_from_output() {
    let p = validate_program_fs(Some("x.fs"), Some("GW1NR-9C"), None, None, None, None).unwrap();
    let mut session = FlashSession::new(&p, "x.fs", Some("Foo"), None, None);
    let (label, args) = session.next_command().unwrap();
    assert_eq!(label, "with_cable");
    assert_eq!(args, s(&["-r", "2", "--device", "GW1NR-9C", "--cable", "Foo", "--fsFile", "x.fs", "--frequency", "15MHz"]));
    assert!(!session.wants_cable_names(1));
    session.record(1, vec![]);
    let (label, args) = session.next_command().unwrap();
    assert_eq!(label, "without_cable");
    assert_eq!(args, s(&["-r", "2", "--device", "GW1NR-9C", "--fsFile", "x.fs", "--frequency", "15MHz"]));
    assert!(session.wants_cable_names(1));
    session.record(1, vec!["Gowin USB Cable(FT2CH)".to_string()]);
    assert_eq!(session.is_done(), false);
    let (label, args) = session.next_command().unwrap();
    assert_eq!(label, "retry_cable_from_output");
    assert_eq!(args[5], "Gowin USB Cable(FT2CH)");
    session.record(0, vec![]);
    assert!(session.is_done());
    let (tried, selected, last_label, last_exit) = session.finish();
    let labels: Vec<&str> = tried.iter().map(|t| t.label.as_str()).collect();
    assert_eq!(labels, vec!["with_cable", "without_cable", "retry_cable_from_output"]);
    assert_eq!(selected, "Gowin USB Cable(FT2CH)");
    assert_eq!(last_label, Some("retry_cable_from_output".to_string()));
    assert_eq!(last_exit, Some(0));
}

#[test]
fn flash_session_ends_without_retry() {
    let p = validate_program_fs(Some("x.fs"), Some("GW5A-25A"), None, None, None, None).unwrap();
    let mut session = FlashSession::new(&p, "x.fs", None, None, None);
    session.record(5, vec![]);
    session.record(6, vec![]);
    assert!(session.is_done());
    let (tried, _, last_label, last_exit) = session.finish();
    assert_eq!(tried.len(), 2);
    assert_eq!(last_label, Some("without_cable".to_string()));
    assert_eq!(last_exit, Some(6));
}

#[test]
fn project_markers() {
    assert!(is_project_marker("run_gowin.tcl", true));
    assert!(!is_project_marker("run_gowin.tcl", false));
    assert!(is_project_marker("fpgaOscillator.gprj", true));
    assert!(is_project_marker("..gprj", true));
    assert!(!is_project_marker(".gprj", true));
    assert!(!is_project_marker("top.gprj", false));
    assert!(!is_project_marker("top.gprj.bak", true));
    assert!(!is_project_marker("run_gowin.tcl.txt", true));
    assert!(!is_project_marker("gprj", true));
}

#[test]
fn first_marked_dir_walks_up_to_the_first_marker() {
    assert_eq!(first_marked_dir(&vec![]), None);
    assert_eq!(first_marked_dir(&vec![false, false]), None);
    assert_eq!(first_marked_dir(&vec![true, true]), Some(0));
    assert_eq!(first_marked_dir(&vec![false, true, true]), Some(1));
}

#[test]
fn program_fs_operation_index_reaches_programmer() {
    let p = validate_program_fs(Some("x.fs"), Some("GW1NR-9C"), None, None, None, Some("5")).unwrap();
    assert_eq!(p.operation, "5");
    assert_eq!(p.retries, 2);
    let mut session = FlashSession::new(&p, "x.fs", None, None, None);
    let (_, args) = session.next_command().unwrap();
    assert_eq!(&args[0..2], &["-r".to_string(), "5".to_string()]);
}

#[test]
fn join_path_on_verbatim_bases() {
    assert_eq!(join_path(r"\\?\C:\Gowin", "IDE"), r"\\?\C:\Gowin\IDE");
    assert_eq!(join_path(r"\\?\C:\Gowin\", "IDE"), r"\\?\C:\Gowin\IDE");
    assert_eq!(join_path(r"\\?\C:", "IDE"), r"\\?\C:\IDE");
    let (ide_base, gw_sh, programmer_cli) = gowin_paths(r"\\?\D:\Gowin");
    assert_eq!(ide_base, r"\\?\D:\Gowin\IDE");
    assert_eq!(gw_sh, r"\\?\D:\Gowin\IDE\bin\gw_sh.exe");
    assert_eq!(programmer_cli, r"\\?\D:\Gowin\Programmer\bin\programmer_cli.exe");
}

#[test]
fn resolve_request_paths() {
    assert_eq!(resolve_under(r"C:\proj", r"D:\other\x.fs"), r"D:\other\x.fs");
    assert_eq!(resolve_under(r"C:\proj", "d:x.fs"), "d:x.fs");
    assert_eq!(resolve_under(r"C:\proj", r"\temp\x.fs"), r"C:\temp\x.fs");
    assert_eq!(resolve_under("proj", r"\temp\x.fs"), r"\temp\x.fs");
    assert_eq!(resolve_under(r"C:\proj", r"\\server\share\x.fs"), r"\\server\share\x.fs");
    assert_eq!(
        resolve_under(r"C:\proj", "fpgaOscillator/impl/pnr/fpgaOscillator.fs"),
        r"C:\proj\fpgaOscillator/impl/pnr/fpgaOscillator.fs"
    );
    assert_eq!(resolve_under(r"C:\proj\", "run.tcl"), r"C:\proj\run.tcl");
}
