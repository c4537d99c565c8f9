//! The Gowin IDE install layout on Windows, the environment `gw_sh` runs in,
//! log-file names and the choice of the project root.

use vstd::prelude::*;
use vstd::string::StringExecFns;
use crate::text::{chars_eq, chars_of, slice_chars, string_of, trim, trim_chars};

verus! {

/// `a` followed by `b`, as a new string.
pub fn concat(a: &str, b: &str) -> (r: String)
    ensures
        r@ == a@ + b@,
{
    let mut r = String::from_str(a);
    r.append(b);
    r
}

/// Whether `c` separates components of a Windows path.
pub open spec fn is_path_sep(c: char) -> bool {
    c == '\\' || c == '/'
}

/// A bare drive prefix such as `C:`.
pub open spec fn is_bare_drive(s: Seq<char>) -> bool {
    s.len() == 2 && (('a' <= s[0] && s[0] <= 'z') || ('A' <= s[0] && s[0] <= 'Z')) && s[1] == ':'
}

/// A verbatim path: one that begins with `\\?\`.
pub open spec fn is_verbatim(s: Seq<char>) -> bool {
    s.len() >= 4 && s[0] == '\\' && s[1] == '\\' && s[2] == '?' && s[3] == '\\'
}

/// Two backslashes in a row at `i`.
pub open spec fn double_sep_at(s: Seq<char>, i: int) -> bool {
    s[i] == '\\' && s[i + 1] == '\\'
}

/// A `.` or `..` component starting at `i`, after the verbatim prefix.
pub open spec fn dot_component_at(s: Seq<char>, i: int) -> bool {
    &&& 4 <= i < s.len()
    &&& s[i - 1] == '\\'
    &&& s[i] == '.'
    &&& (i + 1 == s.len() || s[i + 1] == '\\' || (s[i + 1] == '.' && (i + 2 == s.len() || s[i
        + 2] == '\\')))
}

/// A verbatim path written plainly: something after the prefix, no `/`, no two
/// backslashes in a row, and no `.` or `..` component. Normalising such a path
/// leaves it as it is.
pub open spec fn plain_verbatim(s: Seq<char>) -> bool {
    &&& is_verbatim(s)
    &&& s.len() > 4
    &&& forall|i: int| 0 <= i < s.len() ==> #[trigger] s[i] != '/'
    &&& forall|i: int| 3 <= i < s.len() - 1 ==> !#[trigger] double_sep_at(s, i)
    &&& forall|i: int| !#[trigger] dot_component_at(s, i)
}

/// A single component: not empty, without separators, and neither `.` nor `..`.
pub open spec fn plain_component(c: Seq<char>) -> bool {
    &&& c.len() > 0
    &&& forall|i: int| 0 <= i < c.len() ==> !is_path_sep(#[trigger] c[i])
    &&& !(c.len() == 1 && c[0] == '.')
    &&& !(c.len() == 2 && c[0] == '.' && c[1] == '.')
}

/// A component with neither a root nor a drive prefix, which Windows appends to
/// a base rather than putting in its place.
pub open spec fn relative_component(c: Seq<char>) -> bool {
    c.len() == 0 || (!is_path_sep(c[0]) && !(c.len() >= 2 && (('a' <= c[0] && c[0] <= 'z') || (
    'A' <= c[0] && c[0] <= 'Z')) && c[1] == ':'))
}

/// A base whose joins [`win_join`] describes: any path that is not verbatim,
/// and a verbatim path written plainly.
pub open spec fn joinable_base(s: Seq<char>) -> bool {
    !is_verbatim(s) || plain_verbatim(s)
}

/// The joins [`win_join`] describes: a relative component onto a base that is
/// not verbatim; a single plain component onto a plainly written verbatim base.
pub open spec fn windows_join_case(base: Seq<char>, comp: Seq<char>) -> bool {
    if is_verbatim(base) {
        plain_verbatim(base) && plain_component(comp)
    } else {
        relative_component(comp)
    }
}

/// Joining a component to a base as Windows does (`PathBuf::push`), in the
/// cases [`windows_join_case`] names: a `\` goes between the two unless the
/// base is empty, already ends with a separator, or is a bare drive (`C:` joined
/// with `x` is `C:x`). Windows normalises a verbatim base before the join, which
/// leaves a plainly written one unchanged; other verbatim bases are outside
/// these cases.
pub open spec fn win_join(base: Seq<char>, comp: Seq<char>) -> Seq<char> {
    if base.len() == 0 || is_path_sep(base.last()) || is_bare_drive(base) {
        base + comp
    } else {
        base + seq!['\\'] + comp
    }
}

/// Joins `comp` to `base`: as [`win_join`] says, in the cases it describes.
pub fn join_path(base: &str, comp: &str) -> (r: String)
    ensures
        windows_join_case(base@, comp@) ==> r@ == win_join(base@, comp@),
{
    let b = chars_of(base);
    let n = b.len();
    let plain = n == 0 || b[n - 1] == '\\' || b[n - 1] == '/' || (n == 2 && (('a' <= b[0] && b[0]
        <= 'z') || ('A' <= b[0] && b[0] <= 'Z')) && b[1] == ':');
    if plain {
        concat(base, comp)
    } else {
        let with_sep = concat(base, "\\");
        proof {
            reveal_strlit("\\");
        }
        concat(with_sep.as_str(), comp)
    }
}

/// A path that begins with a drive prefix such as `C:`.
pub open spec fn has_drive_prefix(s: Seq<char>) -> bool {
    s.len() >= 2 && (('a' <= s[0] && s[0] <= 'z') || ('A' <= s[0] && s[0] <= 'Z')) && s[1] == ':'
}

/// A path that begins with two separators (a UNC, device or verbatim prefix).
pub open spec fn starts_with_two_seps(s: Seq<char>) -> bool {
    s.len() >= 2 && is_path_sep(s[0]) && is_path_sep(s[1])
}

/// A path with a root and no prefix, such as `\temp`.
pub open spec fn rooted_without_prefix(s: Seq<char>) -> bool {
    s.len() > 0 && is_path_sep(s[0]) && !starts_with_two_seps(s)
}

/// Resolves a path from a request against the project root, by the Windows
/// rules: a path with a drive prefix stands as it is (`C:\x` is absolute, and
/// `C:x` replaces the root when joined); a path with a root and no prefix keeps
/// only the root's drive, if it has one; a relative path is joined to the root.
/// A path that begins with two separators is kept as it is.
pub fn resolve_under(project_root: &str, p: &str) -> (r: String)
    ensures
        has_drive_prefix(p@) ==> r@ == p@,
        rooted_without_prefix(p@) && !starts_with_two_seps(project_root@) ==> r@ == if has_drive_prefix(
            project_root@,
        ) {
            project_root@.take(2) + p@
        } else {
            p@
        },
        relative_component(p@) && windows_join_case(project_root@, p@) ==> r@ == win_join(
            project_root@,
            p@,
        ),
{
    let pc = chars_of(p);
    let n = pc.len();
    let drive = n >= 2 && (('a' <= pc[0] && pc[0] <= 'z') || ('A' <= pc[0] && pc[0] <= 'Z')) && pc[1]
        == ':';
    let sep0 = n >= 1 && (pc[0] == '\\' || pc[0] == '/');
    let sep1 = n >= 2 && (pc[1] == '\\' || pc[1] == '/');
    if drive || (sep0 && sep1) {
        return String::from_str(p);
    }
    if sep0 {
        let rc = chars_of(project_root);
        let m = rc.len();
        if m >= 2 && (('a' <= rc[0] && rc[0] <= 'z') || ('A' <= rc[0] && rc[0] <= 'Z')) && rc[1]
            == ':' {
            let d = string_of(&slice_chars(&rc, 0, 2));
            proof {
                assert(rc@.subrange(0, 2) =~= project_root@.take(2));
            }
            return concat(d.as_str(), p);
        }
        return String::from_str(p);
    }
    join_path(project_root, p)
}

/// The install layout under `ide_root`: the IDE base directory, `gw_sh.exe` and
/// `programmer_cli.exe`.
pub open spec fn spec_gowin_paths(ide_root: Seq<char>) -> (Seq<char>, Seq<char>, Seq<char>) {
    let ide_base = win_join(ide_root, "IDE"@);
    let programmer_base = win_join(ide_root, "Programmer"@);
    (
        ide_base,
        win_join(win_join(ide_base, "bin"@), "gw_sh.exe"@),
        win_join(win_join(programmer_base, "bin"@), "programmer_cli.exe"@),
    )
}

/// A name that starts with a letter and holds no separator and no `:`.
pub open spec fn simple_name(c: Seq<char>) -> bool {
    &&& c.len() > 0
    &&& ('a' <= c[0] && c[0] <= 'z') || ('A' <= c[0] && c[0] <= 'Z')
    &&& forall|i: int| 0 <= i < c.len() ==> !is_path_sep(#[trigger] c[i]) && c[i] != ':'
}

/// Joining a simple name to a base whose joins are described is itself such a
/// join, and gives a base whose joins are described.
pub proof fn lemma_join_keeps_joinable(base: Seq<char>, comp: Seq<char>)
    requires
        joinable_base(base),
        simple_name(comp),
    ensures
        windows_join_case(base, comp),
        joinable_base(win_join(base, comp)),
{
    let j = win_join(base, comp);
    let glued = base.len() == 0 || is_path_sep(base.last()) || is_bare_drive(base);
    let k: int = if glued { base.len() as int } else { base.len() as int + 1 };
    if glued {
        assert(j =~= base + comp);
    } else {
        assert(j =~= base + seq!['\\'] + comp);
        assert(j[base.len() as int] == '\\');
    }
    assert(j.len() == k + comp.len());
    assert forall|i: int| k <= i < j.len() implies j[i] == comp[i - k] by {}
    assert forall|i: int| 0 <= i < base.len() implies j[i] == base[i] by {}
    assert(!is_path_sep(comp[0]));
    if is_verbatim(base) {
        assert(is_verbatim(j)) by {
            assert(j[0] == base[0] && j[1] == base[1] && j[2] == base[2] && j[3] == base[3]);
        }
        assert forall|i: int| 0 <= i < j.len() implies #[trigger] j[i] != '/' by {
            if i < base.len() {
                assert(base[i] != '/');
            } else if i >= k {
                assert(!is_path_sep(comp[i - k]));
            }
        }
        assert forall|i: int| 3 <= i < j.len() - 1 implies !#[trigger] double_sep_at(j, i) by {
            if i + 1 < base.len() {
                assert(!double_sep_at(base, i));
            } else if i >= k {
                assert(!is_path_sep(comp[i - k]));
            } else if i + 1 == k {
                assert(j[i + 1] == comp[0]);
            } else {
                assert(i + 1 == base.len() && !glued);
                assert(j[i] == base.last());
            }
        }
        assert forall|i: int| !#[trigger] dot_component_at(j, i) by {
            if dot_component_at(j, i) {
                if i >= k + 1 {
                    assert(!is_path_sep(comp[i - 1 - k]));
                } else if i == k {
                    assert(j[i] == comp[0]);
                } else if i < base.len() {
                    assert(j[i - 1] == base[i - 1] && j[i] == base[i]);
                    if i + 1 < base.len() {
                        assert(j[i + 1] == base[i + 1]);
                        if i + 2 < base.len() {
                            assert(j[i + 2] == base[i + 2]);
                        } else if i + 2 == base.len() && glued {
                            assert(base.last() == base[i + 1]);
                        }
                        assert(dot_component_at(base, i));
                    } else {
                        assert(dot_component_at(base, i));
                    }
                } else {
                    assert(i == base.len() && !glued);
                }
            }
        }
    } else if is_verbatim(j) {
        assert(base.len() < 4);
        assert(base.len() == 3 && !glued) by {
            if base.len() >= 1 && j[0] == base[0] && base.len() >= 2 {
                assert(j[1] == base[1]);
            }
            if glued {
                assert(j[3] == comp[3 - k] || k > 3);
            }
        }
        assert(k == 4 && j[4] == comp[0]);
        assert forall|i: int| 0 <= i < j.len() implies #[trigger] j[i] != '/' by {
            if i >= k {
                assert(!is_path_sep(comp[i - k]));
            }
        }
        assert forall|i: int| 3 <= i < j.len() - 1 implies !#[trigger] double_sep_at(j, i) by {
            if i >= k {
                assert(!is_path_sep(comp[i - k]));
            }
        }
        assert forall|i: int| !#[trigger] dot_component_at(j, i) by {
            if dot_component_at(j, i) && i >= k + 1 {
                assert(!is_path_sep(comp[i - 1 - k]));
            }
        }
    }
}

/// The fixed names joined under an install directory are simple names.
pub proof fn lemma_simple_names()
    ensures
        simple_name("IDE"@),
        simple_name("Programmer"@),
        simple_name("bin"@),
        simple_name("lib"@),
        simple_name("gw_sh.exe"@),
        simple_name("programmer_cli.exe"@),
        simple_name("tcl8.6"@),
        simple_name("itcl4.0.3"@),
{
    reveal_strlit("IDE");
    reveal_strlit("Programmer");
    reveal_strlit("bin");
    reveal_strlit("lib");
    reveal_strlit("gw_sh.exe");
    reveal_strlit("programmer_cli.exe");
    reveal_strlit("tcl8.6");
    reveal_strlit("itcl4.0.3");
}

/// The Windows layout of a Gowin install:
/// `<ide_root>\IDE`, `<ide_root>\IDE\bin\gw_sh.exe` and
/// `<ide_root>\Programmer\bin\programmer_cli.exe`, for an install directory
/// whose joins [`win_join`] describes.
pub fn gowin_paths(gowin_ide_path: &str) -> (r: (String, String, String))
    ensures
        joinable_base(gowin_ide_path@) ==> (r.0@, r.1@, r.2@) == spec_gowin_paths(
            gowin_ide_path@,
        ),
{
    let ide_base = join_path(gowin_ide_path, "IDE");
    let programmer_base = join_path(gowin_ide_path, "Programmer");
    let ide_bin = join_path(ide_base.as_str(), "bin");
    let gw_sh = join_path(ide_bin.as_str(), "gw_sh.exe");
    let programmer_bin = join_path(programmer_base.as_str(), "bin");
    let programmer_cli = join_path(programmer_bin.as_str(), "programmer_cli.exe");
    proof {
        reveal_strlit("IDE");
        reveal_strlit("Programmer");
        reveal_strlit("bin");
        reveal_strlit("gw_sh.exe");
        reveal_strlit("programmer_cli.exe");
        let root = gowin_ide_path@;
        if joinable_base(root) {
            lemma_simple_names();
            lemma_join_keeps_joinable(root, "IDE"@);
            lemma_join_keeps_joinable(root, "Programmer"@);
            lemma_join_keeps_joinable(win_join(root, "IDE"@), "bin"@);
            lemma_join_keeps_joinable(win_join(root, "Programmer"@), "bin"@);
            lemma_join_keeps_joinable(win_join(win_join(root, "IDE"@), "bin"@), "gw_sh.exe"@);
            lemma_join_keeps_joinable(
                win_join(win_join(root, "Programmer"@), "bin"@),
                "programmer_cli.exe"@,
            );
        }
    }
    (ide_base, gw_sh, programmer_cli)
}

/// The install directory used when a request names none.
pub fn default_gowin_ide_path() -> (r: String)
    ensures
        r@ == "C:\\Gowin\\Gowin_V1.9.11.03_Education_x64"@,
{
    String::from_str("C:\\Gowin\\Gowin_V1.9.11.03_Education_x64")
}

/// The requested install directory, or the default one.
pub fn effective_ide_path(requested: Option<&str>) -> (r: String)
    ensures
        r@ == match requested {
            Some(p) => p@,
            None => "C:\\Gowin\\Gowin_V1.9.11.03_Education_x64"@,
        },
{
    match requested {
        Some(p) => String::from_str(p),
        None => default_gowin_ide_path(),
    }
}

/// Characters kept in a file stem: ASCII letters and digits, `.`, `-` and `_`.
pub open spec fn stem_char(c: char) -> char {
    if ('a' <= c && c <= 'z') || ('A' <= c && c <= 'Z') || ('0' <= c && c <= '9') || c == '.' || c
        == '-' || c == '_' {
        c
    } else {
        '_'
    }
}

/// `s` with every other character replaced by `_`.
pub open spec fn spec_safe_file_stem(s: Seq<char>) -> Seq<char> {
    s.map_values(|c: char| stem_char(c))
}

/// Makes a tool name usable in a file name: every character that is not an ASCII
/// letter or digit, `.`, `-` or `_` becomes `_`.
pub fn safe_file_stem(s: &str) -> (r: String)
    ensures
        r@ == spec_safe_file_stem(s@),
{
    let cs = chars_of(s);
    let mut out: Vec<char> = Vec::new();
    let mut i: usize = 0;
    while i < cs.len()
        invariant
            i <= cs@.len(),
            cs@ == s@,
            out@ == cs@.take(i as int).map_values(|c: char| stem_char(c)),
        decreases cs@.len() - i,
    {
        let c = cs[i];
        let k = if ('a' <= c && c <= 'z') || ('A' <= c && c <= 'Z') || ('0' <= c && c <= '9') || c
            == '.' || c == '-' || c == '_' {
            c
        } else {
            '_'
        };
        out.push(k);
        proof {
            assert(cs@.take(i + 1).map_values(|c: char| stem_char(c)) =~= cs@.take(
                i as int,
            ).map_values(|c: char| stem_char(c)).push(stem_char(c)));
        }
        i += 1;
    }
    proof {
        assert(cs@.take(cs@.len() as int) =~= cs@);
    }
    string_of(&out)
}

/// The names of the log file and of the metadata file of one run:
/// `<stamp>_<tool>.log` and `<stamp>_<tool>.json`.
pub open spec fn spec_log_file_names(stamp: Seq<char>, tool_name: Seq<char>) -> (Seq<char>, Seq<char>) {
    let base = stamp + "_"@ + spec_safe_file_stem(tool_name);
    (base + ".log"@, base + ".json"@)
}

pub fn log_file_names(stamp: &str, tool_name: &str) -> (r: (String, String))
    ensures
        (r.0@, r.1@) == spec_log_file_names(stamp@, tool_name@),
{
    let base0 = concat(stamp, "_");
    let stem = safe_file_stem(tool_name);
    let base = concat(base0.as_str(), stem.as_str());
    (concat(base.as_str(), ".log"), concat(base.as_str(), ".json"))
}

/// Where the project root comes from.
pub enum ProjectRootSource {
    /// The `project_root` of the request.
    Explicit(String),
    /// The `GOWIN_MCP_PROJECT_ROOT` environment variable.
    FromEnv(String),
    /// Search upwards from the working directory, falling back to it.
    Detect,
}

/// The project root: the request's own, else the environment variable unless it
/// is blank, else detection from the working directory.
pub fn choose_project_root(explicit: Option<&str>, env_value: Option<&str>) -> (r: ProjectRootSource)
    ensures
        match explicit {
            Some(p) => r matches ProjectRootSource::Explicit(q) && q@ == p@,
            None => match env_value {
                Some(v) if trim(v@).len() > 0 => r matches ProjectRootSource::FromEnv(q) && q@
                    == v@,
                _ => r is Detect,
            },
        },
{
    match explicit {
        Some(p) => ProjectRootSource::Explicit(String::from_str(p)),
        None => match env_value {
            Some(v) => {
                let t = trim_chars(&chars_of(v));
                if t.len() > 0 {
                    ProjectRootSource::FromEnv(String::from_str(v))
                } else {
                    ProjectRootSource::Detect
                }
            },
            None => ProjectRootSource::Detect,
        },
    }
}

/// A file that marks a Gowin project directory: one named `run_gowin.tcl`, or
/// one with the extension `gprj` (`top.gprj`; a name that is `.gprj` alone has
/// no extension).
pub open spec fn spec_is_project_marker(file_name: Seq<char>, is_file: bool) -> bool {
    &&& is_file
    &&& (file_name == "run_gowin.tcl"@ || (file_name.len() > 5 && file_name.skip(
        file_name.len() - 5,
    ) == ".gprj"@))
}

/// Whether a directory entry with this name, which is a file or not, marks the
/// directory that holds it as a project root.
pub fn is_project_marker(file_name: &str, is_file: bool) -> (r: bool)
    ensures
        r == spec_is_project_marker(file_name@, is_file),
{
    if !is_file {
        return false;
    }
    let cs = chars_of(file_name);
    let marker = chars_of("run_gowin.tcl");
    if chars_eq(&cs, &marker) {
        return true;
    }
    let n = cs.len();
    if n <= 5 {
        return false;
    }
    let tail = slice_chars(&cs, n - 5, n);
    let ext = chars_of(".gprj");
    proof {
        assert(cs@.subrange(n - 5, n as int) =~= cs@.skip(n - 5));
    }
    chars_eq(&tail, &ext)
}

/// The first directory, walking up from the start, that holds a marker: given
/// for each directory on the way up (the start first, then its parents) whether
/// it holds one, the index of the first that does.
pub fn first_marked_dir(holds_marker: &Vec<bool>) -> (r: Option<usize>)
    ensures
        r matches Some(i) ==> i < holds_marker@.len() && holds_marker@[i as int] && forall|j: int|
            0 <= j < i ==> !holds_marker@[j],
        r is None <==> forall|j: int| 0 <= j < holds_marker@.len() ==> !holds_marker@[j],
{
    let mut i: usize = 0;
    while i < holds_marker.len()
        invariant
            i <= holds_marker@.len(),
            forall|j: int| 0 <= j < i ==> !holds_marker@[j],
        decreases holds_marker@.len() - i,
    {
        if holds_marker[i] {
            return Some(i);
        }
        i += 1;
    }
    None
}

} // verus!
