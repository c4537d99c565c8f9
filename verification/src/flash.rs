//! `program_fs`: validation of the request, the `programmer_cli` argument
//! variants, and the session that tries them until one writes the bitstream.

use vstd::prelude::*;
use vstd::string::StringExecFns;
use crate::error::ToolError;
use crate::scan::strings_view;
use crate::text::{chars_of, trim, trim_chars, string_of};

verus! {

/// A validated `program_fs` request.
pub struct ProgramFsParams {
    pub fs_file_path: String,
    pub device: String,
    pub frequency: String,
    pub retries: u32,
    pub timeout_sec: u64,
    /// The `programmer_cli` operation index: `2` programs SRAM, `5` erases and
    /// programs the embedded flash.
    pub operation: String,
}

pub open spec fn opt_view(o: Option<&str>) -> Option<Seq<char>> {
    match o {
        Some(s) => Some(s@),
        None => None,
    }
}

/// Checks a `program_fs` request in the order the tool does: the `.fs` path,
/// then the device, then the timeout; frequency, retries, timeout and operation
/// index default to `15MHz`, 2, 120 s and `2` (SRAM program).
pub fn validate_program_fs(
    fs_file_path: Option<&str>,
    device: Option<&str>,
    frequency: Option<&str>,
    retries: Option<u32>,
    timeout_sec: Option<u64>,
    operation_index: Option<&str>,
) -> (r: Result<ProgramFsParams, ToolError>)
    ensures
        fs_file_path is None ==> r == Err::<ProgramFsParams, ToolError>(ToolError::MissingFsFilePath),
        fs_file_path is Some && device is None ==> r == Err::<ProgramFsParams, ToolError>(
            ToolError::MissingDevice,
        ),
        fs_file_path is Some && device is Some && timeout_sec == Some(0u64) ==> r == Err::<
            ProgramFsParams,
            ToolError,
        >(ToolError::TimeoutZero),
        fs_file_path is Some && device is Some && timeout_sec != Some(0u64) ==> r is Ok,
        r matches Ok(p) ==> {
            &&& Some(p.fs_file_path@) == opt_view(fs_file_path)
            &&& Some(p.device@) == opt_view(device)
            &&& p.frequency@ == match frequency {
                Some(f) => f@,
                None => "15MHz"@,
            }
            &&& p.retries == match retries {
                Some(n) => n,
                None => 2u32,
            }
            &&& p.timeout_sec == match timeout_sec {
                Some(t) => t,
                None => 120u64,
            }
            &&& p.operation@ == match operation_index {
                Some(o) => o@,
                None => "2"@,
            }
        },
{
    let fs = match fs_file_path {
        Some(p) => p,
        None => {
            return Err(ToolError::MissingFsFilePath);
        },
    };
    let dev = match device {
        Some(d) => d,
        None => {
            return Err(ToolError::MissingDevice);
        },
    };
    let freq = match frequency {
        Some(f) => String::from_str(f),
        None => String::from_str("15MHz"),
    };
    let n = match retries {
        Some(n) => n,
        None => 2,
    };
    let t = match timeout_sec {
        Some(t) => t,
        None => 120,
    };
    if t == 0 {
        return Err(ToolError::TimeoutZero);
    }
    let op = match operation_index {
        Some(o) => String::from_str(o),
        None => String::from_str("2"),
    };
    Ok(
        ProgramFsParams {
            fs_file_path: String::from_str(fs),
            device: String::from_str(dev),
            frequency: freq,
            retries: n,
            timeout_sec: t,
            operation: op,
        },
    )
}

/// The cable passed to `--cable`: the request's, trimmed, unless it is blank;
/// else `USB Debugger A`, the on-board programmer of the Tang Nano 9K.
pub open spec fn spec_selected_cable(requested: Option<Seq<char>>) -> Seq<char> {
    match requested {
        Some(c) => if trim(c).len() > 0 {
            trim(c)
        } else {
            "USB Debugger A"@
        },
        None => "USB Debugger A"@,
    }
}

pub fn selected_cable(requested: Option<&str>) -> (r: String)
    ensures
        r@ == spec_selected_cable(opt_view(requested)),
{
    match requested {
        Some(c) => {
            let t = trim_chars(&chars_of(c));
            if t.len() > 0 {
                string_of(&t)
            } else {
                String::from_str("USB Debugger A")
            }
        },
        None => String::from_str("USB Debugger A"),
    }
}

/// The arguments common to every variant; `-r` is `programmer_cli`'s
/// operation index.
pub open spec fn spec_base_args(
    operation: Seq<char>,
    device: Seq<char>,
    fs_file: Seq<char>,
    frequency: Seq<char>,
) -> Seq<Seq<char>> {
    seq![
        "-r"@,
        operation,
        "--device"@,
        device,
        "--fsFile"@,
        fs_file,
        "--frequency"@,
        frequency,
    ]
}

/// `extra` put after the first four base arguments (`-r N --device D`).
pub open spec fn with_extra(base: Seq<Seq<char>>, extra: Seq<Seq<char>>) -> Seq<Seq<char>> {
    base.take(4) + extra + base.skip(4)
}

fn push_str(v: &mut Vec<String>, s: &str)
    ensures
        strings_view(final(v)@) == strings_view(old(v)@).push(s@),
{
    v.push(String::from_str(s));
    proof {
        assert(strings_view(v@) =~= strings_view(old(v)@).push(s@));
    }
}

/// The base arguments for a validated request and the absolute `.fs` path.
pub fn base_args(params: &ProgramFsParams, fs_abs: &str) -> (r: Vec<String>)
    ensures
        strings_view(r@) == spec_base_args(
            params.operation@,
            params.device@,
            fs_abs@,
            params.frequency@,
        ),
{
    let mut v: Vec<String> = Vec::new();
    push_str(&mut v, "-r");
    push_str(&mut v, params.operation.as_str());
    push_str(&mut v, "--device");
    push_str(&mut v, params.device.as_str());
    push_str(&mut v, "--fsFile");
    push_str(&mut v, fs_abs);
    push_str(&mut v, "--frequency");
    push_str(&mut v, params.frequency.as_str());
    proof {
        assert(strings_view(v@) =~= spec_base_args(
            params.operation@,
            params.device@,
            fs_abs@,
            params.frequency@,
        ));
    }
    v
}

/// [`with_extra`] on strings.
pub fn insert_extra(base: &Vec<String>, extra: &Vec<String>) -> (r: Vec<String>)
    requires
        base@.len() >= 4,
    ensures
        strings_view(r@) == with_extra(strings_view(base@), strings_view(extra@)),
{
    let mut v: Vec<String> = Vec::new();
    let mut i: usize = 0;
    while i < 4
        invariant
            i <= 4 <= base@.len(),
            strings_view(v@) == strings_view(base@).take(i as int),
        decreases 4 - i,
    {
        push_str(&mut v, base[i].as_str());
        proof {
            assert(strings_view(base@).take(i + 1) =~= strings_view(base@).take(i as int).push(base@[i as int]@));
        }
        i += 1;
    }
    let mut j: usize = 0;
    while j < extra.len()
        invariant
            j <= extra@.len(),
            base@.len() >= 4,
            strings_view(v@) == strings_view(base@).take(4) + strings_view(extra@).take(j as int),
        decreases extra@.len() - j,
    {
        push_str(&mut v, extra[j].as_str());
        proof {
            assert(strings_view(extra@).take(j + 1) =~= strings_view(extra@).take(j as int).push(extra@[j as int]@));
            assert(strings_view(base@).take(4) + strings_view(extra@).take(j + 1) =~= (strings_view(base@).take(4) + strings_view(extra@).take(j as int)).push(extra@[j as int]@));
        }
        j += 1;
    }
    proof {
        assert(strings_view(extra@).take(extra@.len() as int) =~= strings_view(extra@));
    }
    let mut k: usize = 4;
    while k < base.len()
        invariant
            4 <= k <= base@.len(),
            strings_view(v@) == strings_view(base@).take(4) + strings_view(extra@) + strings_view(base@).subrange(4, k as int),
        decreases base@.len() - k,
    {
        push_str(&mut v, base[k].as_str());
        proof {
            assert(strings_view(base@).subrange(4, k + 1) =~= strings_view(base@).subrange(4, k as int).push(base@[k as int]@));
            assert(strings_view(base@).take(4) + strings_view(extra@) + strings_view(base@).subrange(4, k + 1) =~= (strings_view(base@).take(4) + strings_view(extra@) + strings_view(base@).subrange(4, k as int)).push(base@[k as int]@));
        }
        k += 1;
    }
    proof {
        assert(strings_view(base@).subrange(4, base@.len() as int) =~= strings_view(base@).skip(4));
    }
    v
}


/// A labelled argument list for `programmer_cli`.
pub struct Variant {
    pub label: String,
    pub args: Vec<String>,
}

pub open spec fn variants_view(v: Seq<Variant>) -> Seq<(Seq<char>, Seq<Seq<char>>)> {
    v.map_values(|x: Variant| (x.label@, strings_view(x.args@)))
}

/// The variants in the order they are tried: with a cable index and a location,
/// the documented `--cable-index N --channel L`, then the older
/// `--cable-index N --location L`, then `--cable-index N` alone; then
/// `--cable <cable>`; last, no cable option at all.
pub open spec fn spec_variants(
    base: Seq<Seq<char>>,
    cable_index: Option<Seq<char>>,
    location: Option<Seq<char>>,
    cable: Seq<char>,
) -> Seq<(Seq<char>, Seq<Seq<char>>)> {
    let indexed = match (cable_index, location) {
        (Some(idx), Some(loc)) => seq![
            ("with_cable_index:official"@, with_extra(base, seq!["--cable-index"@, idx, "--channel"@, loc])),
            ("with_cable_index:--location"@, with_extra(base, seq!["--cable-index"@, idx, "--location"@, loc])),
            ("with_cable_index:no_channel"@, with_extra(base, seq!["--cable-index"@, idx])),
        ],
        _ => seq![],
    };
    indexed + seq![("with_cable"@, with_extra(base, seq!["--cable"@, cable])), ("without_cable"@, base)]
}

fn make_variant(label: &str, base: &Vec<String>, extra: Vec<String>) -> (r: Variant)
    requires
        base@.len() >= 4,
    ensures
        r.label@ == label@,
        strings_view(r.args@) == with_extra(strings_view(base@), strings_view(extra@)),
{
    Variant { label: String::from_str(label), args: insert_extra(base, &extra) }
}

fn push_variant(v: &mut Vec<Variant>, x: Variant)
    ensures
        variants_view(final(v)@) == variants_view(old(v)@).push((x.label@, strings_view(x.args@))),
{
    let ghost xv = (x.label@, strings_view(x.args@));
    v.push(x);
    proof {
        assert(variants_view(v@) =~= variants_view(old(v)@).push(xv));
    }
}

/// The variants for the base arguments, the requested cable index and location,
/// and the selected cable.
pub fn program_fs_variants(
    base: &Vec<String>,
    cable_index: Option<&str>,
    location: Option<&str>,
    cable: &str,
) -> (r: Vec<Variant>)
    requires
        base@.len() >= 4,
    ensures
        variants_view(r@) == spec_variants(
            strings_view(base@),
            opt_view(cable_index),
            opt_view(location),
            cable@,
        ),
{
    let mut out: Vec<Variant> = Vec::new();
    let ghost b = strings_view(base@);
    match (cable_index, location) {
        (Some(idx), Some(loc)) => {
            let mut e1: Vec<String> = Vec::new();
            push_str(&mut e1, "--cable-index");
            push_str(&mut e1, idx);
            push_str(&mut e1, "--channel");
            push_str(&mut e1, loc);
            push_variant(&mut out, make_variant("with_cable_index:official", base, e1));
            let mut e2: Vec<String> = Vec::new();
            push_str(&mut e2, "--cable-index");
            push_str(&mut e2, idx);
            push_str(&mut e2, "--location");
            push_str(&mut e2, loc);
            push_variant(&mut out, make_variant("with_cable_index:--location", base, e2));
            let mut e3: Vec<String> = Vec::new();
            push_str(&mut e3, "--cable-index");
            push_str(&mut e3, idx);
            push_variant(&mut out, make_variant("with_cable_index:no_channel", base, e3));
            proof {
                assert(strings_view(e1@) =~= seq!["--cable-index"@, idx@, "--channel"@, loc@]);
                assert(strings_view(e2@) =~= seq!["--cable-index"@, idx@, "--location"@, loc@]);
                assert(strings_view(e3@) =~= seq!["--cable-index"@, idx@]);
            }
        },
        _ => {},
    }
    // Cables reported by a listing would be tried here, one by one; the tool
    // runs no listing before programming, so that list is always empty.
    let mut e4: Vec<String> = Vec::new();
    push_str(&mut e4, "--cable");
    push_str(&mut e4, cable);
    push_variant(&mut out, make_variant("with_cable", base, e4));
    let mut none: Vec<String> = Vec::new();
    let mut i: usize = 0;
    while i < base.len()
        invariant
            i <= base@.len(),
            strings_view(none@) == strings_view(base@).take(i as int),
        decreases base@.len() - i,
    {
        push_str(&mut none, base[i].as_str());
        proof {
            assert(strings_view(base@).take(i + 1) =~= strings_view(base@).take(i as int).push(base@[i as int]@));
        }
        i += 1;
    }
    proof {
        assert(strings_view(base@).take(base@.len() as int) =~= strings_view(base@));
        assert(strings_view(e4@) =~= seq!["--cable"@, cable@]);
    }
    push_variant(&mut out, Variant { label: String::from_str("without_cable"), args: none });
    proof {
        assert(variants_view(out@) =~= spec_variants(b, opt_view(cable_index), opt_view(location), cable@));
    }
    out
}


/// The label and exit code of one variant run.
#[derive(Debug)]
pub struct VariantTried {
    pub label: String,
    pub exit_code: i32,
}

pub open spec fn tried_view(v: Seq<VariantTried>) -> Seq<(Seq<char>, i32)> {
    v.map_values(|t: VariantTried| (t.label@, t.exit_code))
}

/// Where a programming session stands.
#[derive(Clone, Copy, PartialEq, Eq, Structural, Debug)]
pub enum FlashPhase {
    /// Trying the variants in order.
    Variants,
    /// Every variant failed and the run without a cable option named a cable;
    /// one more run with that cable is next.
    Retry,
    /// Finished.
    Done,
}

/// The state of a programming session.
pub struct FlashView {
    pub variants: Seq<(Seq<char>, Seq<Seq<char>>)>,
    pub base: Seq<Seq<char>>,
    pub next: nat,
    pub phase: FlashPhase,
    pub tried: Seq<(Seq<char>, i32)>,
    pub selected_cable: Seq<char>,
    pub cable_from_output: Option<Seq<char>>,
    pub last_label: Option<Seq<char>>,
    pub last_exit: Option<i32>,
}

pub open spec fn flash_start(
    variants: Seq<(Seq<char>, Seq<Seq<char>>)>,
    base: Seq<Seq<char>>,
    selected_cable: Seq<char>,
) -> FlashView {
    FlashView {
        variants,
        base,
        next: 0,
        phase: FlashPhase::Variants,
        tried: seq![],
        selected_cable,
        cable_from_output: None,
        last_label: None,
        last_exit: None,
    }
}

/// The arguments of the retry with the cable named by the output.
pub open spec fn retry_variant(s: FlashView) -> (Seq<char>, Seq<Seq<char>>) {
    (
        "retry_cable_from_output"@,
        with_extra(s.base, seq!["--cable"@, s.cable_from_output.unwrap_or(Seq::empty())]),
    )
}

/// The label and arguments of the next run, if any.
pub open spec fn flash_command(s: FlashView) -> Option<(Seq<char>, Seq<Seq<char>>)> {
    match s.phase {
        FlashPhase::Variants => Some(s.variants[s.next as int]),
        FlashPhase::Retry => Some(retry_variant(s)),
        FlashPhase::Done => None,
    }
}

/// The output of a run is searched for cable names only when the run without a
/// cable option fails.
pub open spec fn wants_cable_names(s: FlashView, exit_code: i32) -> bool {
    s.phase == FlashPhase::Variants && s.variants[s.next as int].0 == "without_cable"@ && exit_code
        != 0
}

/// The session after its next run ended with `exit_code`, its output naming the
/// cables `names` (looked at only when [`wants_cable_names`]): the first success
/// ends it; when every variant failed, a cable named by the run without a cable
/// option is tried once more and becomes the selected cable.
pub open spec fn flash_step(s: FlashView, exit_code: i32, names: Seq<Seq<char>>) -> FlashView {
    match s.phase {
        FlashPhase::Variants => {
            let label = s.variants[s.next as int].0;
            let cfo = if wants_cable_names(s, exit_code) && names.len() > 0 {
                Some(names[0])
            } else {
                s.cable_from_output
            };
            let phase = if exit_code == 0 {
                FlashPhase::Done
            } else if s.next + 1 < s.variants.len() {
                FlashPhase::Variants
            } else if cfo is Some {
                FlashPhase::Retry
            } else {
                FlashPhase::Done
            };
            FlashView {
                next: s.next + 1,
                phase,
                tried: s.tried.push((label, exit_code)),
                cable_from_output: cfo,
                last_label: Some(label),
                last_exit: Some(exit_code),
                ..s
            }
        },
        FlashPhase::Retry => FlashView {
            phase: FlashPhase::Done,
            tried: s.tried.push(("retry_cable_from_output"@, exit_code)),
            selected_cable: s.cable_from_output.unwrap_or(Seq::empty()),
            last_label: Some("retry_cable_from_output"@),
            last_exit: Some(exit_code),
            ..s
        },
        FlashPhase::Done => s,
    }
}

/// The session after a sequence of runs (exit code and named cables of each).
pub open spec fn flash_run(start: FlashView, outs: Seq<(i32, Seq<Seq<char>>)>) -> FlashView
    decreases outs.len(),
{
    if outs.len() == 0 {
        start
    } else {
        flash_step(flash_run(start, outs.drop_last()), outs.last().0, outs.last().1)
    }
}

/// Only the last variant runs without a cable option.
pub open spec fn variants_shape(variants: Seq<(Seq<char>, Seq<Seq<char>>)>) -> bool {
    &&& variants.len() > 0
    &&& variants.last().0 == "without_cable"@
    &&& forall|j: int| 0 <= j < variants.len() - 1 ==> #[trigger] variants[j].0 != "without_cable"@
}

/// The variants of every request have that shape, and always include the
/// selected cable: `--cable <cable>` comes right before the run without a cable.
pub proof fn variants_have_shape(
    base: Seq<Seq<char>>,
    cable_index: Option<Seq<char>>,
    location: Option<Seq<char>>,
    cable: Seq<char>,
)
    ensures
        variants_shape(spec_variants(base, cable_index, location, cable)),
        ({
            let v = spec_variants(base, cable_index, location, cable);
            v.len() >= 2 && v[v.len() - 2] == ("with_cable"@, with_extra(base, seq!["--cable"@, cable]))
                && v.last() == ("without_cable"@, base)
        }),
{
    reveal_strlit("without_cable");
    reveal_strlit("with_cable");
    reveal_strlit("with_cable_index:official");
    reveal_strlit("with_cable_index:--location");
    reveal_strlit("with_cable_index:no_channel");
    let v = spec_variants(base, cable_index, location, cable);
    assert forall|j: int| 0 <= j < v.len() - 1 implies #[trigger] v[j].0 != "without_cable"@ by {
        assert(v[j].0.len() != "without_cable"@.len());
    }
}

/// None of the first `k` runs succeeded.
pub open spec fn all_failed(outs: Seq<(i32, Seq<Seq<char>>)>, k: int) -> bool {
    forall|j: int| #![trigger outs[j]] 0 <= j < k ==> outs[j].0 != 0
}

/// The labels of the first `k` variants with the exit codes of their runs.
pub open spec fn tried_of(
    variants: Seq<(Seq<char>, Seq<Seq<char>>)>,
    outs: Seq<(i32, Seq<Seq<char>>)>,
    k: nat,
) -> Seq<(Seq<char>, i32)> {
    Seq::new(k, |j: int| (variants[j].0, outs[j].0))
}

/// What a session comes to, whatever its runs return: the variants run in
/// order until one succeeds, and the cable first selected stays selected; when
/// all fail and the run without a cable option named a cable, that cable is
/// tried once more and becomes the selected cable; otherwise the session ends
/// with the last failure.
pub proof fn flash_outcome(start: FlashView, outs: Seq<(i32, Seq<Seq<char>>)>)
    requires
        variants_shape(start.variants),
        start.next == 0,
        start.phase == FlashPhase::Variants,
        start.tried.len() == 0,
        start.cable_from_output is None,
    ensures
        ({
            let st = flash_run(start, outs);
            let m = start.variants.len() as int;
            &&& st.variants == start.variants
            &&& st.base == start.base
            &&& match st.phase {
                FlashPhase::Variants => st.next == outs.len() && outs.len() < m && all_failed(
                    outs,
                    outs.len() as int,
                ) && st.tried == tried_of(start.variants, outs, outs.len()) && st.selected_cable
                    == start.selected_cable && st.cable_from_output is None,
                FlashPhase::Retry => outs.len() == m && all_failed(outs, m) && outs[m - 1].1.len()
                    > 0 && st.cable_from_output == Some(outs[m - 1].1[0]) && st.tried == tried_of(
                    start.variants,
                    outs,
                    m as nat,
                ) && st.selected_cable == start.selected_cable,
                FlashPhase::Done => (exists|f: int|
                    0 <= f < m && f < outs.len() && #[trigger] outs[f].0 == 0 && all_failed(outs, f)
                        && st.tried == tried_of(start.variants, outs, (f + 1) as nat)
                        && st.selected_cable == start.selected_cable) || (outs.len() >= m
                    && all_failed(outs, m) && outs[m - 1].1.len() == 0 && st.tried == tried_of(
                    start.variants,
                    outs,
                    m as nat,
                ) && st.selected_cable == start.selected_cable && st.last_exit == Some(
                    outs[m - 1].0,
                )) || (outs.len() > m && all_failed(outs, m) && outs[m - 1].1.len() > 0
                    && st.tried == tried_of(start.variants, outs, m as nat).push(
                    ("retry_cable_from_output"@, outs[m].0),
                ) && st.selected_cable == outs[m - 1].1[0] && st.last_exit == Some(outs[m].0)),
            }
        }),
    decreases outs.len(),
{
    let m = start.variants.len() as int;
    if outs.len() == 0 {
        assert(tried_of(start.variants, outs, 0) =~= Seq::<(Seq<char>, i32)>::empty());
    } else {
        let p = outs.drop_last();
        flash_outcome(start, p);
        let st0 = flash_run(start, p);
        let last = outs.last();
        assert forall|j: int| 0 <= j < p.len() implies #[trigger] outs[j] == p[j] by {}
        assert forall|k: nat| k <= p.len() implies tried_of(start.variants, outs, k) =~= tried_of(
            start.variants,
            p,
            k,
        ) by {}
        match st0.phase {
            FlashPhase::Variants => {
                let k = p.len() as int;
                assert(tried_of(start.variants, outs, outs.len()) =~= tried_of(
                    start.variants,
                    p,
                    p.len(),
                ).push((start.variants[k].0, last.0)));
                assert(outs[k] == last);
                if last.0 == 0 {
                    assert(all_failed(outs, k));
                } else {
                    assert(all_failed(outs, outs.len() as int));
                    if k + 1 == m {
                        assert(start.variants[k].0 == "without_cable"@);
                    } else {
                        assert(start.variants[k].0 != "without_cable"@);
                    }
                }
            },
            FlashPhase::Retry => {
                assert(outs[m] == last);
                assert(outs[m - 1] == p[m - 1]);
                assert(all_failed(outs, m));
            },
            FlashPhase::Done => {
                if exists|f: int|
                    0 <= f < m && f < p.len() && #[trigger] p[f].0 == 0 && all_failed(p, f)
                        && st0.tried == tried_of(start.variants, p, (f + 1) as nat)
                        && st0.selected_cable == start.selected_cable {
                    let f = choose|f: int|
                        0 <= f < m && f < p.len() && #[trigger] p[f].0 == 0 && all_failed(p, f)
                            && st0.tried == tried_of(start.variants, p, (f + 1) as nat)
                            && st0.selected_cable == start.selected_cable;
                    assert(outs[f] == p[f]);
                    assert(all_failed(outs, f));
                } else if p.len() >= m && all_failed(p, m) && p[m - 1].1.len() == 0 {
                    assert(outs[m - 1] == p[m - 1]);
                    assert(all_failed(outs, m));
                } else {
                    assert(outs[m - 1] == p[m - 1]);
                    assert(outs[m] == p[m]);
                    assert(all_failed(outs, m));
                }
            },
        }
    }
}

/// An argument list that carries a request's values: `-r <operation>` and
/// `--device <device>` first, `--fsFile <fs>` and `--frequency <frequency>` last.
pub open spec fn carries_request(
    args: Seq<Seq<char>>,
    operation: Seq<char>,
    device: Seq<char>,
    fs_file: Seq<char>,
    frequency: Seq<char>,
) -> bool {
    &&& args.len() >= 8
    &&& args[0] == "-r"@ && args[1] == operation
    &&& args[2] == "--device"@ && args[3] == device
    &&& args[args.len() - 4] == "--fsFile"@ && args[args.len() - 3] == fs_file
    &&& args[args.len() - 2] == "--frequency"@ && args[args.len() - 1] == frequency
}

proof fn lemma_with_extra_carries(
    operation: Seq<char>,
    device: Seq<char>,
    fs_file: Seq<char>,
    frequency: Seq<char>,
    extra: Seq<Seq<char>>,
)
    ensures
        carries_request(
            with_extra(spec_base_args(operation, device, fs_file, frequency), extra),
            operation,
            device,
            fs_file,
            frequency,
        ),
        carries_request(
            spec_base_args(operation, device, fs_file, frequency),
            operation,
            device,
            fs_file,
            frequency,
        ),
{
    let b = spec_base_args(operation, device, fs_file, frequency);
    assert(b.take(4) =~= seq!["-r"@, operation, "--device"@, device]);
    assert(b.skip(4) =~= seq!["--fsFile"@, fs_file, "--frequency"@, frequency]);
    let w = with_extra(b, extra);
    assert(w.len() == 8 + extra.len());
    assert(w[w.len() - 4] == b[4] && w[w.len() - 3] == b[5] && w[w.len() - 2] == b[6] && w[w.len()
        - 1] == b[7]);
}

/// Every `programmer_cli` run of a session carries the request's own values:
/// its operation index, device, `.fs` path and frequency, whatever the earlier
/// runs returned; and the retry with the cable named by the run without a cable
/// option is the base arguments with `--cable <that cable>` after the device.
pub proof fn session_runs_carry_request(
    operation: Seq<char>,
    device: Seq<char>,
    fs_file: Seq<char>,
    frequency: Seq<char>,
    cable_index: Option<Seq<char>>,
    location: Option<Seq<char>>,
    cable: Seq<char>,
    outs: Seq<(i32, Seq<Seq<char>>)>,
)
    ensures
        ({
            let base = spec_base_args(operation, device, fs_file, frequency);
            let st = flash_run(
                flash_start(spec_variants(base, cable_index, location, cable), base, cable),
                outs,
            );
            &&& flash_command(st) matches Some(c) ==> carries_request(
                c.1,
                operation,
                device,
                fs_file,
                frequency,
            )
            &&& st.phase == FlashPhase::Retry ==> outs.len() > 0 && outs.last().1.len() > 0
                && flash_command(st) == Some(
                (
                    "retry_cable_from_output"@,
                    seq![
                        "-r"@,
                        operation,
                        "--device"@,
                        device,
                        "--cable"@,
                        outs.last().1[0],
                        "--fsFile"@,
                        fs_file,
                        "--frequency"@,
                        frequency,
                    ],
                ),
            )
        }),
{
    let base = spec_base_args(operation, device, fs_file, frequency);
    let vs = spec_variants(base, cable_index, location, cable);
    let start = flash_start(vs, base, cable);
    variants_have_shape(base, cable_index, location, cable);
    flash_outcome(start, outs);
    let st = flash_run(start, outs);
    lemma_with_extra_carries(operation, device, fs_file, frequency, seq![]);
    match st.phase {
        FlashPhase::Variants => {
            let i = st.next as int;
            let v = vs[i];
            match (cable_index, location) {
                (Some(idx), Some(loc)) => {
                    lemma_with_extra_carries(operation, device, fs_file, frequency, seq!["--cable-index"@, idx, "--channel"@, loc]);
                    lemma_with_extra_carries(operation, device, fs_file, frequency, seq!["--cable-index"@, idx, "--location"@, loc]);
                    lemma_with_extra_carries(operation, device, fs_file, frequency, seq!["--cable-index"@, idx]);
                },
                _ => {},
            }
            lemma_with_extra_carries(operation, device, fs_file, frequency, seq!["--cable"@, cable]);
        },
        FlashPhase::Retry => {
            let m = vs.len() as int;
            let c = outs[m - 1].1[0];
            assert(outs.last() == outs[m - 1]);
            lemma_with_extra_carries(operation, device, fs_file, frequency, seq!["--cable"@, c]);
            assert(with_extra(base, seq!["--cable"@, c]) =~= seq![
                "-r"@,
                operation,
                "--device"@,
                device,
                "--cable"@,
                c,
                "--fsFile"@,
                fs_file,
                "--frequency"@,
                frequency,
            ]);
        },
        FlashPhase::Done => {},
    }
}

/// A session of `programmer_cli` runs that writes a bitstream.
pub struct FlashSession {
    variants: Vec<Variant>,
    base: Vec<String>,
    next: usize,
    phase: FlashPhase,
    tried: Vec<VariantTried>,
    selected_cable: String,
    cable_from_output: Option<String>,
    last_label: Option<String>,
    last_exit: Option<i32>,
}

pub open spec fn opt_string(o: Option<String>) -> Option<Seq<char>> {
    match o {
        Some(s) => Some(s@),
        None => None,
    }
}

impl View for FlashSession {
    type V = FlashView;

    closed spec fn view(&self) -> FlashView {
        FlashView {
            variants: variants_view(self.variants@),
            base: strings_view(self.base@),
            next: self.next as nat,
            phase: self.phase,
            tried: tried_view(self.tried@),
            selected_cable: self.selected_cable@,
            cable_from_output: opt_string(self.cable_from_output),
            last_label: opt_string(self.last_label),
            last_exit: self.last_exit,
        }
    }
}

fn clone_strings_vec(v: &Vec<String>) -> (r: Vec<String>)
    ensures
        strings_view(r@) == strings_view(v@),
{
    let mut r: Vec<String> = Vec::new();
    let mut i: usize = 0;
    while i < v.len()
        invariant
            i <= v@.len(),
            strings_view(r@) == strings_view(v@).take(i as int),
        decreases v@.len() - i,
    {
        push_str(&mut r, v[i].as_str());
        proof {
            assert(strings_view(v@).take(i + 1) =~= strings_view(v@).take(i as int).push(v@[i as int]@));
        }
        i += 1;
    }
    proof {
        assert(strings_view(v@).take(v@.len() as int) =~= strings_view(v@));
    }
    r
}

impl FlashSession {
    /// The session's own consistency.
    pub closed spec fn wf(&self) -> bool {
        &&& self.variants@.len() > 0
        &&& self.base@.len() >= 4
        &&& self.next <= self.variants@.len()
        &&& self.phase == FlashPhase::Variants ==> self.next < self.variants@.len()
        &&& self.phase == FlashPhase::Retry ==> self.cable_from_output is Some
    }

    /// A session for a validated request, the absolute `.fs` path and the
    /// request's cable, cable index and location.
    pub fn new(
        params: &ProgramFsParams,
        fs_abs: &str,
        cable: Option<&str>,
        cable_index: Option<&str>,
        location: Option<&str>,
    ) -> (r: FlashSession)
        ensures
            r.wf(),
            r@ == flash_start(
                spec_variants(
                    spec_base_args(params.operation@, params.device@, fs_abs@, params.frequency@),
                    opt_view(cable_index),
                    opt_view(location),
                    spec_selected_cable(opt_view(cable)),
                ),
                spec_base_args(params.operation@, params.device@, fs_abs@, params.frequency@),
                spec_selected_cable(opt_view(cable)),
            ),
    {
        let selected = selected_cable(cable);
        let base = base_args(params, fs_abs);
        let variants = program_fs_variants(&base, cable_index, location, selected.as_str());
        let r = FlashSession {
            variants,
            base,
            next: 0,
            phase: FlashPhase::Variants,
            tried: Vec::new(),
            selected_cable: selected,
            cable_from_output: None,
            last_label: None,
            last_exit: None,
        };
        proof {
            assert(tried_view(r.tried@) =~= Seq::<(Seq<char>, i32)>::empty());
            assert(variants_view(r.variants@).len() == r.variants@.len());
        }
        r
    }

    /// The label and arguments of the next run, or `None` once the session is over.
    pub fn next_command(&self) -> (r: Option<(String, Vec<String>)>)
        requires
            self.wf(),
        ensures
            match r {
                Some(c) => flash_command(self@) == Some((c.0@, strings_view(c.1@))),
                None => flash_command(self@) is None,
            },
    {
        match self.phase {
            FlashPhase::Variants => {
                let v = &self.variants[self.next];
                proof {
                    assert(variants_view(self.variants@)[self.next as int] == (v.label@, strings_view(v.args@)));
                }
                Some((String::from_str(v.label.as_str()), clone_strings_vec(&v.args)))
            },
            FlashPhase::Retry => {
                let cable = match &self.cable_from_output {
                    Some(c) => String::from_str(c.as_str()),
                    None => String::new(),
                };
                let mut extra: Vec<String> = Vec::new();
                push_str(&mut extra, "--cable");
                push_str(&mut extra, cable.as_str());
                proof {
                    assert(strings_view(extra@) =~= seq!["--cable"@, self@.cable_from_output.unwrap_or(Seq::empty())]);
                }
                Some((String::from_str("retry_cable_from_output"), insert_extra(&self.base, &extra)))
            },
            FlashPhase::Done => None,
        }
    }

    /// Whether the output of the run that ended with `exit_code` must be searched
    /// for cable names before [`Self::record`].
    pub fn wants_cable_names(&self, exit_code: i32) -> (b: bool)
        requires
            self.wf(),
        ensures
            b == wants_cable_names(self@, exit_code),
    {
        if self.phase == FlashPhase::Variants && exit_code != 0 {
            proof {
                assert(variants_view(self.variants@)[self.next as int].0 == self.variants@[self.next as int].label@);
            }
            self.variants[self.next].label == String::from_str("without_cable")
        } else {
            false
        }
    }

    /// Records the result of the run of [`Self::next_command`]: its exit code and
    /// the cable names of its output.
    pub fn record(&mut self, exit_code: i32, names: Vec<String>)
        requires
            old(self).wf(),
        ensures
            final(self).wf(),
            final(self)@ == flash_step(old(self)@, exit_code, strings_view(names@)),
    {
        match self.phase {
            FlashPhase::Variants => {
                let _n = self.variants.len();
                let wants = self.wants_cable_names(exit_code);
                let label = String::from_str(self.variants[self.next].label.as_str());
                proof {
                    assert(variants_view(self.variants@)[self.next as int].0 == self.variants@[self.next as int].label@);
                }
                if wants && names.len() > 0 {
                    let first = String::from_str(names[0].as_str());
                    proof {
                        assert(strings_view(names@)[0] == names@[0]@);
                    }
                    self.cable_from_output = Some(first);
                }
                let ghost t = (label@, exit_code);
                let ghost old_tried = tried_view(self.tried@);
                self.tried.push(VariantTried { label: String::from_str(label.as_str()), exit_code });
                proof {
                    assert(tried_view(self.tried@) =~= old_tried.push(t));
                }
                self.last_label = Some(label);
                self.last_exit = Some(exit_code);
                self.next = self.next + 1;
                if exit_code == 0 {
                    self.phase = FlashPhase::Done;
                } else if self.next < self.variants.len() {
                    self.phase = FlashPhase::Variants;
                } else if self.cable_from_output.is_some() {
                    self.phase = FlashPhase::Retry;
                } else {
                    self.phase = FlashPhase::Done;
                }
            },
            FlashPhase::Retry => {
                let ghost old_tried = tried_view(self.tried@);
                self.tried.push(
                    VariantTried { label: String::from_str("retry_cable_from_output"), exit_code },
                );
                proof {
                    assert(tried_view(self.tried@) =~= old_tried.push(("retry_cable_from_output"@, exit_code)));
                }
                let cable = match &self.cable_from_output {
                    Some(c) => String::from_str(c.as_str()),
                    None => String::new(),
                };
                self.selected_cable = cable;
                self.last_label = Some(String::from_str("retry_cable_from_output"));
                self.last_exit = Some(exit_code);
                self.phase = FlashPhase::Done;
            },
            FlashPhase::Done => {},
        }
    }

    /// Whether the session is over.
    pub fn is_done(&self) -> (b: bool)
        ensures
            b == (self@.phase == FlashPhase::Done),
    {
        self.phase == FlashPhase::Done
    }

    /// The variants tried, the selected cable, and the label and exit code of
    /// the last run.
    pub fn finish(self) -> (r: (Vec<VariantTried>, String, Option<String>, Option<i32>))
        ensures
            tried_view(r.0@) == self@.tried,
            r.1@ == self@.selected_cable,
            opt_string(r.2) == self@.last_label,
            r.3 == self@.last_exit,
    {
        (self.tried, self.selected_cable, self.last_label, self.last_exit)
    }
}

} // verus!
