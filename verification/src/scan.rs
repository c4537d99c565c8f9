//! `list_cables`: the argument lists tried on `programmer_cli`, and the scan
//! that runs them until one lists cables, falling back to `--help`.

use vstd::prelude::*;
use crate::cable::{CableEntry, CableInfo, infos_view};

verus! {

/// The views of a list of strings.
pub open spec fn strings_view(v: Seq<String>) -> Seq<Seq<char>> {
    v.map_values(|s: String| s@)
}

/// The argument lists tried in turn to make `programmer_cli` list its cables;
/// `--scan-cables`, the documented flag, comes first.
pub open spec fn spec_list_cables_arg_candidates() -> Seq<Seq<Seq<char>>> {
    seq![
        seq!["--scan-cables"@],
        seq!["--scan"@],
        seq!["--list-cables"@],
        seq!["--list_cables"@],
        seq!["--cableList"@],
        seq!["--listCable"@],
        seq!["--cables"@],
        seq!["--scan_cables"@],
        seq!["-l"@],
        seq!["--list"@],
        seq!["--enumerate"@],
    ]
}

/// The argument list of the last resort.
pub open spec fn help_args() -> Seq<Seq<char>> {
    seq!["--help"@]
}

fn one_arg(s: &str) -> (r: Vec<String>)
    ensures
        strings_view(r@) == seq![s@],
{
    let mut v: Vec<String> = Vec::new();
    v.push(String::from_str(s));
    proof {
        assert(strings_view(v@) =~= seq![s@]);
    }
    v
}

/// The argument lists tried in turn to make `programmer_cli` list its cables.
pub fn list_cables_arg_candidates() -> (r: Vec<Vec<String>>)
    ensures
        r@.map_values(|v: Vec<String>| strings_view(v@)) == spec_list_cables_arg_candidates(),
{
    let mut r: Vec<Vec<String>> = Vec::new();
    r.push(one_arg("--scan-cables"));
    r.push(one_arg("--scan"));
    r.push(one_arg("--list-cables"));
    r.push(one_arg("--list_cables"));
    r.push(one_arg("--cableList"));
    r.push(one_arg("--listCable"));
    r.push(one_arg("--cables"));
    r.push(one_arg("--scan_cables"));
    r.push(one_arg("-l"));
    r.push(one_arg("--list"));
    r.push(one_arg("--enumerate"));
    proof {
        assert(r@.map_values(|v: Vec<String>| strings_view(v@)) =~= spec_list_cables_arg_candidates());
    }
    r
}

/// One run of `programmer_cli`: its arguments and exit code.
#[derive(Debug)]
pub struct Attempt {
    pub args: Vec<String>,
    pub exit_code: i32,
}

impl View for Attempt {
    type V = (Seq<Seq<char>>, i32);

    open spec fn view(&self) -> (Seq<Seq<char>>, i32) {
        (strings_view(self.args@), self.exit_code)
    }
}

pub open spec fn attempts_view(v: Seq<Attempt>) -> Seq<(Seq<Seq<char>>, i32)> {
    v.map_values(|a: Attempt| a@)
}

/// Where a scan stands.
#[derive(Clone, Copy, PartialEq, Eq, Structural, Debug)]
pub enum ScanPhase {
    /// Trying the candidate argument lists.
    Candidates,
    /// Every candidate failed; `--help` is next.
    Help,
    /// Finished.
    Done,
}

/// The state of a scan.
pub struct ScanView {
    pub next: nat,
    pub phase: ScanPhase,
    pub attempts: Seq<(Seq<Seq<char>>, i32)>,
    pub cables: Seq<CableEntry>,
}

pub open spec fn scan_start() -> ScanView {
    ScanView { next: 0, phase: ScanPhase::Candidates, attempts: seq![], cables: seq![] }
}

/// The arguments of the next run, if any.
pub open spec fn scan_command(s: ScanView) -> Option<Seq<Seq<char>>> {
    match s.phase {
        ScanPhase::Candidates => Some(spec_list_cables_arg_candidates()[s.next as int]),
        ScanPhase::Help => Some(help_args()),
        ScanPhase::Done => None,
    }
}

/// A run lists cables: it exits with 0 and its output names at least one cable.
pub open spec fn run_found_cables(exit_code: i32, parsed: Seq<CableEntry>) -> bool {
    exit_code == 0 && parsed.len() > 0
}

/// The scan after the run of its next command ended with `exit_code` and an
/// output whose cables are `parsed`: a candidate that lists cables ends the
/// scan with them; after the last candidate comes `--help`, whose cables,
/// whatever they are, end the scan.
pub open spec fn scan_step(s: ScanView, exit_code: i32, parsed: Seq<CableEntry>) -> ScanView {
    let cands = spec_list_cables_arg_candidates();
    match s.phase {
        ScanPhase::Candidates => {
            let attempts = s.attempts.push((cands[s.next as int], exit_code));
            if run_found_cables(exit_code, parsed) {
                ScanView { next: s.next + 1, phase: ScanPhase::Done, attempts, cables: parsed }
            } else if s.next + 1 >= cands.len() {
                ScanView { next: s.next + 1, phase: ScanPhase::Help, attempts, cables: s.cables }
            } else {
                ScanView { next: s.next + 1, phase: ScanPhase::Candidates, attempts, cables: s.cables }
            }
        },
        ScanPhase::Help => ScanView {
            next: s.next,
            phase: ScanPhase::Done,
            attempts: s.attempts.push((help_args(), exit_code)),
            cables: parsed,
        },
        ScanPhase::Done => s,
    }
}

/// The scan after a sequence of runs (exit code and cables of each output).
pub open spec fn scan_run(outs: Seq<(i32, Seq<CableEntry>)>) -> ScanView
    decreases outs.len(),
{
    if outs.len() == 0 {
        scan_start()
    } else {
        scan_step(scan_run(outs.drop_last()), outs.last().0, outs.last().1)
    }
}

/// The attempts of the first `k` candidates with the given results.
pub open spec fn candidate_attempts(outs: Seq<(i32, Seq<CableEntry>)>, k: nat) -> Seq<
    (Seq<Seq<char>>, i32),
> {
    Seq::new(k, |j: int| (spec_list_cables_arg_candidates()[j], outs[j].0))
}

/// None of the first `k` runs found cables.
pub open spec fn none_found(outs: Seq<(i32, Seq<CableEntry>)>, k: int) -> bool {
    forall|j: int| #![trigger outs[j]] 0 <= j < k ==> !run_found_cables(outs[j].0, outs[j].1)
}

/// What a scan comes to, whatever its runs return: it tries the candidates in
/// order and stops at the first whose run lists cables, which are then the
/// result; when none does, it runs `--help` and takes whatever cables that
/// output names. Until then it is still trying candidates, or about to run `--help`.
pub proof fn scan_outcome(outs: Seq<(i32, Seq<CableEntry>)>)
    ensures
        ({
            let st = scan_run(outs);
            let n = spec_list_cables_arg_candidates().len() as int;
            match st.phase {
                ScanPhase::Candidates => st.next == outs.len() && outs.len() < n && none_found(
                    outs,
                    outs.len() as int,
                ) && st.attempts == candidate_attempts(outs, outs.len()) && st.cables.len() == 0,
                ScanPhase::Help => outs.len() == n && none_found(outs, n) && st.attempts
                    == candidate_attempts(outs, n as nat) && st.cables.len() == 0,
                ScanPhase::Done => (exists|f: int|
                    0 <= f < n && f < outs.len() && run_found_cables(
                        #[trigger] outs[f].0,
                        outs[f].1,
                    ) && none_found(outs, f) && st.attempts == candidate_attempts(outs, (f + 1) as nat)
                        && st.cables == outs[f].1) || (outs.len() > n && none_found(outs, n)
                    && st.attempts == candidate_attempts(outs, n as nat).push(
                    (help_args(), outs[n].0),
                ) && st.cables == outs[n].1),
            }
        }),
    decreases outs.len(),
{
    let n = spec_list_cables_arg_candidates().len() as int;
    if outs.len() == 0 {
        assert(candidate_attempts(outs, 0) =~= Seq::<(Seq<Seq<char>>, i32)>::empty());
    } else {
        let p = outs.drop_last();
        scan_outcome(p);
        let st0 = scan_run(p);
        let last = outs.last();
        assert forall|j: int| 0 <= j < p.len() implies #[trigger] outs[j] == p[j] by {}
        assert forall|k: nat| k <= p.len() implies candidate_attempts(outs, k) =~= candidate_attempts(p, k) by {}
        match st0.phase {
            ScanPhase::Candidates => {
                assert(candidate_attempts(outs, outs.len()) =~= candidate_attempts(p, p.len()).push(
                    (spec_list_cables_arg_candidates()[p.len() as int], last.0),
                ));
                if run_found_cables(last.0, last.1) {
                    let f = p.len() as int;
                    assert(outs[f] == last);
                    assert(none_found(outs, f));
                } else {
                    assert(none_found(outs, outs.len() as int));
                }
            },
            ScanPhase::Help => {
                assert(outs[n] == last);
                assert(none_found(outs, n));
            },
            ScanPhase::Done => {
                if exists|f: int|
                    0 <= f < n && f < p.len() && run_found_cables(#[trigger] p[f].0, p[f].1)
                        && none_found(p, f) && st0.attempts == candidate_attempts(p, (f + 1) as nat)
                        && st0.cables == p[f].1 {
                    let f = choose|f: int|
                        0 <= f < n && f < p.len() && run_found_cables(#[trigger] p[f].0, p[f].1)
                            && none_found(p, f) && st0.attempts == candidate_attempts(
                            p,
                            (f + 1) as nat,
                        ) && st0.cables == p[f].1;
                    assert(outs[f] == p[f]);
                    assert(none_found(outs, f));
                } else {
                    assert(outs[n] == p[n]);
                    assert(none_found(outs, n));
                }
            },
        }
    }
}

/// A number that tells the flags apart: their length, third and seventh characters.
spec fn flag_code(f: Seq<char>) -> int {
    f.len() * 100000 + (if f.len() > 2 { f[2] as int * 300 } else { 0 }) + (if f.len() > 6 {
        f[6] as int
    } else {
        0
    })
}

spec fn flag_code_table(k: int) -> int {
    if k == 0 {
        1334545
    } else if k == 1 {
        634500
    } else if k == 2 {
        1332445
    } else if k == 3 {
        1332495
    } else if k == 4 {
        1129801
    } else if k == 5 {
        1132467
    } else if k == 6 {
        829801
    } else if k == 7 {
        1334595
    } else if k == 8 {
        200000
    } else if k == 9 {
        632400
    } else if k == 10 {
        1130401
    } else {
        0
    }
}

/// The flags a scan tries are eleven different ones, `--scan-cables` (the
/// documented flag) first and the `--list_cables` that Sipeed's on-board
/// programmer answers to among them, each alone, and none is `--help`.
pub proof fn list_cables_candidates_distinct()
    ensures
        ({
            let c = spec_list_cables_arg_candidates();
            &&& c.len() == 11
            &&& c[0] == seq!["--scan-cables"@]
            &&& forall|i: int| 0 <= i < c.len() ==> (#[trigger] c[i]).len() == 1
            &&& forall|i: int, j: int| 0 <= i < j < c.len() ==> #[trigger] c[i] != #[trigger] c[j]
            &&& forall|i: int| 0 <= i < c.len() ==> #[trigger] c[i] != help_args()
            &&& forall|f: Seq<char>|
                f == "--scan-cables"@ || f == "--scan"@ || f == "--list-cables"@ || f == "--list_cables"@
                    || f == "--cableList"@ || f == "--listCable"@ || f == "--cables"@ || f
                    == "--scan_cables"@ || f == "-l"@ || f == "--list"@ || f == "--enumerate"@
                    ==> #[trigger] c.contains(seq![f])
        }),
{
    reveal_strlit("--scan-cables");
    reveal_strlit("--scan");
    reveal_strlit("--list-cables");
    reveal_strlit("--list_cables");
    reveal_strlit("--cableList");
    reveal_strlit("--listCable");
    reveal_strlit("--cables");
    reveal_strlit("--scan_cables");
    reveal_strlit("-l");
    reveal_strlit("--list");
    reveal_strlit("--enumerate");
    reveal_strlit("--help");
    let c = spec_list_cables_arg_candidates();
    assert forall|k: int| 0 <= k < c.len() implies #[trigger] flag_code(c[k][0]) == flag_code_table(k) by {
        if k == 0 {
            assert(flag_code(c[0][0]) == 1334545);
        } else if k == 1 {
            assert(flag_code(c[1][0]) == 634500);
        } else if k == 2 {
            assert(flag_code(c[2][0]) == 1332445);
        } else if k == 3 {
            assert(flag_code(c[3][0]) == 1332495);
        } else if k == 4 {
            assert(flag_code(c[4][0]) == 1129801);
        } else if k == 5 {
            assert(flag_code(c[5][0]) == 1132467);
        } else if k == 6 {
            assert(flag_code(c[6][0]) == 829801);
        } else if k == 7 {
            assert(flag_code(c[7][0]) == 1334595);
        } else if k == 8 {
            assert(flag_code(c[8][0]) == 200000);
        } else if k == 9 {
            assert(flag_code(c[9][0]) == 632400);
        } else if k == 10 {
            assert(flag_code(c[10][0]) == 1130401);
        }
    }
    assert(flag_code(help_args()[0]) == 631200);
    assert forall|i: int, j: int| 0 <= i < j < c.len() implies #[trigger] c[i] != #[trigger] c[j] by {
        assert(flag_code(c[i][0]) == flag_code_table(i));
        assert(flag_code(c[j][0]) == flag_code_table(j));
    }
    assert forall|i: int| 0 <= i < c.len() implies #[trigger] c[i] != help_args() by {
        assert(flag_code(c[i][0]) == flag_code_table(i));
    }
    assert forall|f: Seq<char>|
        f == "--scan-cables"@ || f == "--scan"@ || f == "--list-cables"@ || f == "--list_cables"@
            || f == "--cableList"@ || f == "--listCable"@ || f == "--cables"@ || f
            == "--scan_cables"@ || f == "-l"@ || f == "--list"@ || f == "--enumerate"@ implies #[trigger] c.contains(
        seq![f],
    ) by {
        if f == "--scan-cables"@ { assert(c[0] == seq![f]); }
        else if f == "--scan"@ { assert(c[1] == seq![f]); }
        else if f == "--list-cables"@ { assert(c[2] == seq![f]); }
        else if f == "--list_cables"@ { assert(c[3] == seq![f]); }
        else if f == "--cableList"@ { assert(c[4] == seq![f]); }
        else if f == "--listCable"@ { assert(c[5] == seq![f]); }
        else if f == "--cables"@ { assert(c[6] == seq![f]); }
        else if f == "--scan_cables"@ { assert(c[7] == seq![f]); }
        else if f == "-l"@ { assert(c[8] == seq![f]); }
        else if f == "--list"@ { assert(c[9] == seq![f]); }
        else { assert(c[10] == seq![f]); }
    }
}

/// A scan never runs an argument list twice: the runs made so far differ from
/// each other, and the next one differs from all of them; so a scan that comes
/// to `--help` has tried every candidate flag once.
pub proof fn scan_never_repeats(outs: Seq<(i32, Seq<CableEntry>)>)
    ensures
        ({
            let st = scan_run(outs);
            &&& forall|i: int, j: int|
                0 <= i < j < st.attempts.len() ==> #[trigger] st.attempts[i].0 != #[trigger] st.attempts[j].0
            &&& scan_command(st) matches Some(a) ==> forall|i: int|
                0 <= i < st.attempts.len() ==> #[trigger] st.attempts[i].0 != a
            &&& st.phase == ScanPhase::Help ==> forall|k: int|
                #![trigger spec_list_cables_arg_candidates()[k]]
                0 <= k < spec_list_cables_arg_candidates().len() ==> exists|i: int|
                    0 <= i < st.attempts.len() && #[trigger] st.attempts[i].0
                        == spec_list_cables_arg_candidates()[k]
        }),
{
    scan_outcome(outs);
    list_cables_candidates_distinct();
    let st = scan_run(outs);
    let c = spec_list_cables_arg_candidates();
    let n = c.len() as int;
    if st.phase == ScanPhase::Help {
        assert forall|k: int| #![trigger c[k]] 0 <= k < n implies exists|i: int|
            0 <= i < st.attempts.len() && #[trigger] st.attempts[i].0 == c[k] by {
            assert(st.attempts[k].0 == c[k]);
        }
    }
    if st.phase == ScanPhase::Done && !(exists|f: int|
        0 <= f < n && f < outs.len() && run_found_cables(#[trigger] outs[f].0, outs[f].1)
            && none_found(outs, f) && st.attempts == candidate_attempts(outs, (f + 1) as nat)
            && st.cables == outs[f].1) {
        let base = candidate_attempts(outs, n as nat);
        assert forall|i: int, j: int| 0 <= i < j < st.attempts.len() implies #[trigger] st.attempts[i].0
            != #[trigger] st.attempts[j].0 by {
            if j == n {
                assert(st.attempts[j].0 == help_args());
                assert(st.attempts[i].0 == c[i]);
            } else {
                assert(st.attempts[i].0 == c[i] && st.attempts[j].0 == c[j]);
            }
        }
    }
}

/// A scan of `programmer_cli` for its cables.
pub struct CableScan {
    candidates: Vec<Vec<String>>,
    next: usize,
    phase: ScanPhase,
    attempts: Vec<Attempt>,
    cables: Vec<CableInfo>,
}

impl View for CableScan {
    type V = ScanView;

    closed spec fn view(&self) -> ScanView {
        ScanView {
            next: self.next as nat,
            phase: self.phase,
            attempts: attempts_view(self.attempts@),
            cables: infos_view(self.cables@),
        }
    }
}

fn clone_strings(v: &Vec<String>) -> (r: Vec<String>)
    ensures
        strings_view(r@) == strings_view(v@),
{
    let mut r: Vec<String> = Vec::new();
    let mut i: usize = 0;
    while i < v.len()
        invariant
            i <= v@.len(),
            strings_view(r@) == strings_view(v@).take(i as int),
        decreases v@.len() - i,
    {
        let s = v[i].clone();
        let ghost old_r = strings_view(r@);
        r.push(s);
        proof {
            assert(strings_view(r@) =~= old_r.push(s@));
            assert(strings_view(v@).take(i + 1) =~= strings_view(v@).take(i as int).push(v@[i as int]@));
        }
        i += 1;
    }
    proof {
        assert(strings_view(v@).take(v@.len() as int) =~= strings_view(v@));
    }
    r
}

impl CableScan {
    /// The scan's own consistency: the candidate lists are those of
    /// [`list_cables_arg_candidates`] and a scan in the candidate phase has one to run.
    pub closed spec fn wf(&self) -> bool {
        &&& self.candidates@.map_values(|v: Vec<String>| strings_view(v@))
            == spec_list_cables_arg_candidates()
        &&& self.phase == ScanPhase::Candidates ==> self.next < self.candidates@.len()
        &&& self.next <= self.candidates@.len()
    }

    /// A scan that has run nothing yet.
    pub fn new() -> (r: CableScan)
        ensures
            r.wf(),
            r@ == scan_start(),
    {
        let r = CableScan {
            candidates: list_cables_arg_candidates(),
            next: 0,
            phase: ScanPhase::Candidates,
            attempts: Vec::new(),
            cables: Vec::new(),
        };
        proof {
            assert(attempts_view(r.attempts@) =~= Seq::<(Seq<Seq<char>>, i32)>::empty());
            assert(infos_view(r.cables@) =~= Seq::<CableEntry>::empty());
            assert(r.candidates@.map_values(|v: Vec<String>| strings_view(v@)).len() == 11);
        }
        r
    }

    /// The arguments of the next run, or `None` once the scan is over.
    pub fn next_command(&self) -> (r: Option<Vec<String>>)
        requires
            self.wf(),
        ensures
            match r {
                Some(v) => scan_command(self@) == Some(strings_view(v@)),
                None => scan_command(self@) is None,
            },
    {
        match self.phase {
            ScanPhase::Candidates => {
                proof {
                    assert(self.candidates@.map_values(|v: Vec<String>| strings_view(v@))[self.next as int]
                        == strings_view(self.candidates@[self.next as int]@));
                }
                Some(clone_strings(&self.candidates[self.next]))
            },
            ScanPhase::Help => Some(one_arg("--help")),
            ScanPhase::Done => None,
        }
    }

    /// Records the result of the run of [`Self::next_command`]: its exit code and
    /// the cables that its output names.
    pub fn record(&mut self, exit_code: i32, parsed: Vec<CableInfo>)
        requires
            old(self).wf(),
        ensures
            final(self).wf(),
            final(self)@ == scan_step(old(self)@, exit_code, infos_view(parsed@)),
    {
        let ghost cands = spec_list_cables_arg_candidates();
        match self.phase {
            ScanPhase::Candidates => {
                let args = clone_strings(&self.candidates[self.next]);
                proof {
                    assert(self.candidates@.map_values(|v: Vec<String>| strings_view(v@))[self.next as int]
                        == strings_view(self.candidates@[self.next as int]@));
                }
                let ghost a = (strings_view(args@), exit_code);
                let ghost old_att = attempts_view(self.attempts@);
                self.attempts.push(Attempt { args, exit_code });
                proof {
                    assert(attempts_view(self.attempts@) =~= old_att.push(a));
                }
                self.next = self.next + 1;
                if exit_code == 0 && parsed.len() > 0 {
                    self.phase = ScanPhase::Done;
                    self.cables = parsed;
                } else if self.next >= self.candidates.len() {
                    self.phase = ScanPhase::Help;
                }
            },
            ScanPhase::Help => {
                let args = one_arg("--help");
                let ghost a = (strings_view(args@), exit_code);
                let ghost old_att = attempts_view(self.attempts@);
                self.attempts.push(Attempt { args, exit_code });
                proof {
                    assert(attempts_view(self.attempts@) =~= old_att.push(a));
                }
                self.phase = ScanPhase::Done;
                self.cables = parsed;
            },
            ScanPhase::Done => {},
        }
    }

    /// Whether the scan is over.
    pub fn is_done(&self) -> (b: bool)
        ensures
            b == (self@.phase == ScanPhase::Done),
    {
        self.phase == ScanPhase::Done
    }

    /// The attempts made and the cables found.
    pub fn finish(self) -> (r: (Vec<Attempt>, Vec<CableInfo>))
        ensures
            attempts_view(r.0@) == self@.attempts,
            infos_view(r.1@) == self@.cables,
    {
        (self.attempts, self.cables)
    }
}

} // verus!
