//! Cable names as `programmer_cli` prints them, and the parser that extracts
//! cable entries (name, cable index, USB location) from its output.

use vstd::prelude::*;
use vstd::slice::{slice_subrange, slice_to_vec};
use crate::text::{
    byte_len, byte_len_chars, index_at_byte_chars, starts_with_chars, trim_start_class_chars, chars_eq, chars_of, contains, contains_chars, count_char, count_char_chars,
    find, find_chars, index_at_byte, lemma_count_char_absent, lemma_count_nonzero_has, lemma_find_from, lemma_trim_class,
    lemma_trim_class_idempotent, lemma_find_first, lemma_occurs_char, trim_ignores_blank_ends,
    lowercase_chars, occurs_at, rfind_char, rfind_char_chars, single,
    slice_all, slice_chars, spec_to_lowercase, starts_with, string_of, trim, trim_chars,
    trim_class, trim_class_chars, trim_start_class, CharClass,
};

verus! {

/// A cable entry as exchanged with callers.
///
/// `Cable found: USB Debugger A/1/321/null (USB location:321)` gives the name
/// `USB Debugger A`, the index `1` and the location `321`.
#[derive(Debug, PartialEq, Eq)]
pub struct CableInfo {
    pub name: String,
    pub index: Option<String>,
    pub location: Option<String>,
}

/// The mathematical value of a [`CableInfo`].
pub struct CableEntry {
    pub name: Seq<char>,
    pub index: Option<Seq<char>>,
    pub location: Option<Seq<char>>,
}

pub open spec fn opt_chars(o: Option<String>) -> Option<Seq<char>> {
    match o {
        Some(s) => Some(s@),
        None => None,
    }
}

impl View for CableInfo {
    type V = CableEntry;

    open spec fn view(&self) -> CableEntry {
        CableEntry { name: self.name@, index: opt_chars(self.index), location: opt_chars(self.location) }
    }
}

/// The cable name without a device-id suffix of two or more `/segment`s:
/// `FTUSB-1B (JTAG-USB Cable)/0/0/null` becomes `FTUSB-1B (JTAG-USB Cable)`, while
/// `GW2A-LV18PG256C8/I7`, with a single segment, is kept whole.
pub open spec fn spec_strip_cable_suffix(name: Seq<char>) -> Seq<char> {
    let t = trim(name);
    if t.len() == 0 {
        Seq::empty()
    } else if count_char(t, '/') >= 2 {
        match find(t, seq!['/']) {
            Some(p) => trim(t.take(p as int)),
            None => t,
        }
    } else {
        t
    }
}

/// Empty sequences become `None`.
pub open spec fn non_empty(s: Seq<char>) -> Option<Seq<char>> {
    if s.len() == 0 {
        None
    } else {
        Some(s)
    }
}

/// The part of `s` before its first `/` (all of `s` if there is none).
pub open spec fn first_segment(s: Seq<char>) -> Seq<char> {
    match find(s, seq!['/']) {
        Some(q) => s.take(q as int),
        None => s,
    }
}

/// The part of `s` after its last `/` (all of `s` if there is none).
pub open spec fn last_segment(s: Seq<char>) -> Seq<char> {
    match rfind_char(s, '/') {
        Some(q) => s.skip(q as int + 1),
        None => s,
    }
}

/// The next-to-last `/`-separated segment of `s`, if `s` has at least two.
pub open spec fn second_last_segment(s: Seq<char>) -> Option<Seq<char>> {
    match rfind_char(s, '/') {
        Some(q) => Some(last_segment(s.take(q as int))),
        None => None,
    }
}

/// Splits `Name/idx/loc/null` (two or more `/`) into the name, the first segment
/// after it and the next-to-last segment; other values are a name alone.
pub open spec fn split_cable_value(t: Seq<char>) -> (Seq<char>, Option<Seq<char>>, Option<Seq<char>>) {
    if count_char(t, '/') >= 2 {
        match find(t, seq!['/']) {
            Some(p) => {
                let tail = t.skip(p as int + 1);
                let loc = match second_last_segment(tail) {
                    Some(seg) => non_empty(trim(seg)),
                    None => None,
                };
                (trim(t.take(p as int)), non_empty(trim(first_segment(tail))), loc)
            },
            None => (t, None, None),
        }
    } else {
        (t, None, None)
    }
}

/// `trim`, then strip surrounding `"`, then `trim` again.
pub open spec fn clean_value(s: Seq<char>) -> Seq<char> {
    trim(trim_class(trim(s), CharClass::Quote))
}

/// Whether a lower-cased name looks like a programming cable.
pub open spec fn cable_like(low: Seq<char>) -> bool {
    contains(low, "cable"@) || contains(low, "gowin"@) || contains(low, "ft2ch"@) || contains(
        low,
        "ft2232"@,
    ) || contains(low, "ft232"@) || contains(low, "ft60x"@) || (contains(low, "usb"@) && (contains(
        low,
        "debugger"@,
    ) || contains(low, "debug"@))) || contains(low, "jtag"@)
}

/// The name a candidate value gives: cleaned, split from its index and
/// location, and stripped of a device-id suffix.
pub open spec fn candidate_name(candidate: Seq<char>) -> Seq<char> {
    spec_strip_cable_suffix(split_cable_value(clean_value(candidate)).0)
}

/// The entry that a candidate value yields, given `low`, its name lower-cased:
/// a non-empty name of at least three bytes that looks like a cable.
pub open spec fn entry_given(candidate: Seq<char>, low: Seq<char>) -> Option<CableEntry> {
    let t = clean_value(candidate);
    if t.len() == 0 {
        None
    } else {
        let parts = split_cable_value(t);
        let name = spec_strip_cable_suffix(parts.0);
        if name.len() == 0 || byte_len(name) < 3 {
            None
        } else if !cable_like(low) {
            None
        } else {
            Some(CableEntry { name: name, index: parts.1, location: parts.2 })
        }
    }
}

/// The entry that a candidate value yields, if it is accepted.
pub open spec fn entry_of(candidate: Seq<char>) -> Option<CableEntry> {
    entry_given(candidate, spec_to_lowercase(candidate_name(candidate)))
}

/// Whether some entry of `found` has the name `name`.
pub open spec fn has_name(found: Seq<CableEntry>, name: Seq<char>) -> bool {
    exists|i: int| 0 <= i < found.len() && #[trigger] found[i].name == name
}

/// Adds the entry of `candidate`, unless it is rejected or its name is already known.
pub open spec fn push_entry(found: Seq<CableEntry>, candidate: Seq<char>) -> Seq<CableEntry> {
    match entry_of(candidate) {
        Some(e) => if has_name(found, e.name) {
            found
        } else {
            found.push(e)
        },
        None => found,
    }
}

/// Adds the candidates in order.
pub open spec fn push_all(found: Seq<CableEntry>, cands: Seq<Seq<char>>) -> Seq<CableEntry>
    decreases cands.len(),
{
    if cands.len() == 0 {
        found
    } else {
        push_entry(push_all(found, cands.drop_last()), cands.last())
    }
}

/// Appending two candidate lists adds the first, then the second.
pub proof fn lemma_push_all_append(found: Seq<CableEntry>, a: Seq<Seq<char>>, b: Seq<Seq<char>>)
    ensures
        push_all(found, a + b) == push_all(push_all(found, a), b),
    decreases b.len(),
{
    if b.len() == 0 {
        assert(a + b =~= a);
    } else {
        assert((a + b).drop_last() =~= a + b.drop_last());
        lemma_push_all_append(found, a, b.drop_last());
    }
}

/// The labels that introduce a cable name, lower-cased: `Target Cable:`,
/// `Cable found:`, `Cable:`, `Cable Name:`.
pub open spec fn cable_labels() -> Seq<Seq<char>> {
    seq!["target cable:"@, "cable found:"@, "cable:"@, "cable name:"@]
}

/// Byte offset in `line` just past the first occurrence of `label` in `low`,
/// the lower-cased line, as `find` on the lower-cased text reports it (the
/// offset is taken in the lower-cased text and then applied to `line`).
pub open spec fn label_value_start(line: Seq<char>, low: Seq<char>, label: Seq<char>) -> Option<nat> {
    match find(low, label) {
        Some(k) => Some(byte_len(low.take(k as int)) + byte_len(label)),
        None => None,
    }
}

/// Slicing `line` at the value offset of `label` stays on a character boundary
/// (otherwise `&line[offset..]` panics).
pub open spec fn label_slice_ok(line: Seq<char>, low: Seq<char>, label: Seq<char>) -> bool {
    match label_value_start(line, low, label) {
        Some(b) => index_at_byte(line, b) is Some,
        None => true,
    }
}

/// The value after `label`, cleaned, if the label occurs.
pub open spec fn label_values(line: Seq<char>, low: Seq<char>, label: Seq<char>) -> Seq<Seq<char>> {
    match label_value_start(line, low, label) {
        Some(b) => match index_at_byte(line, b) {
            Some(j) => seq![clean_value(line.skip(j as int))],
            None => seq![],
        },
        None => seq![],
    }
}

/// The label values of `line`, label after label.
pub open spec fn labels_values(line: Seq<char>, low: Seq<char>, labels: Seq<Seq<char>>) -> Seq<
    Seq<char>,
>
    decreases labels.len(),
{
    if labels.len() == 0 {
        seq![]
    } else {
        labels_values(line, low, labels.drop_last()) + label_values(line, low, labels.last())
    }
}

/// Every label can be sliced on, `low` being the lower-cased line.
pub open spec fn labels_slice_ok(line: Seq<char>, low: Seq<char>) -> bool {
    forall|i: int|
        0 <= i < cable_labels().len() ==> label_slice_ok(line, low, #[trigger] cable_labels()[i])
}

/// The texts between consecutive pairs of double quotes, trimmed.
pub open spec fn quoted_values(rest: Seq<char>) -> Seq<Seq<char>>
    decreases rest.len(),
{
    match find(rest, seq!['"']) {
        None => seq![],
        Some(s) => {
            proof {
                lemma_find_from(rest, seq!['"'], 0);
            }
            let after = rest.skip(s as int + 1);
            match find(after, seq!['"']) {
                None => seq![],
                Some(e) => {
                    proof {
                        lemma_find_from(after, seq!['"'], 0);
                    }
                    seq![trim(after.take(e as int))] + quoted_values(after.skip(e as int + 1))
                },
            }
        },
    }
}

/// A lower-cased list item that names a Gowin or FTDI cable.
pub open spec fn list_item_like(low: Seq<char>) -> bool {
    (starts_with(low, "gowin"@) && contains(low, "cable"@)) || contains(low, "usb cable"@)
        || contains(low, "ft2ch"@) || contains(low, "ft2232"@)
}

/// A line without its list number (`1.`, `[1]`, ...) and blanks.
pub open spec fn list_item_text(line: Seq<char>) -> Seq<char> {
    trim(trim_start_class(line, CharClass::ListMarker))
}

/// The list item of `line`, given `low`, its text lower-cased: the text, when
/// it is not empty, has at most 80 bytes and names a cable.
pub open spec fn list_item_given(line: Seq<char>, low: Seq<char>) -> Seq<Seq<char>> {
    let stripped = list_item_text(line);
    if stripped.len() > 0 && byte_len(stripped) <= 80 && list_item_like(low) {
        seq![stripped]
    } else {
        seq![]
    }
}

/// A numbered list item (`1. Gowin USB Cable(FT2CH)`, `[1] ...`) without its
/// number, when it names a cable and has at most 80 bytes.
pub open spec fn list_item_values(line: Seq<char>) -> Seq<Seq<char>> {
    list_item_given(line, spec_to_lowercase(list_item_text(line)))
}

/// Every label of `line` can be sliced on.
pub open spec fn line_slices_ok(line: Seq<char>) -> bool {
    labels_slice_ok(line, spec_to_lowercase(line))
}

/// The values that the labels of `line` introduce.
pub open spec fn line_label_values(line: Seq<char>) -> Seq<Seq<char>> {
    labels_values(line, spec_to_lowercase(line), cable_labels())
}

/// The candidate values of a trimmed line, in the order they are pushed: the
/// label values, the quoted names, and, on a line without a label, the line as
/// a numbered list item.
pub open spec fn line_values(line: Seq<char>) -> Seq<Seq<char>> {
    line_label_values(line) + quoted_values(line) + if line_label_values(line).len() == 0 {
        list_item_values(line)
    } else {
        seq![]
    }
}

/// The text split at each `\n` (after trimming, the same lines as `str::lines`).
pub open spec fn split_lines(s: Seq<char>) -> Seq<Seq<char>>
    decreases s.len(),
{
    match find(s, seq!['\n']) {
        Some(i) => {
            proof {
                lemma_find_from(s, seq!['\n'], 0);
            }
            seq![s.take(i as int)] + split_lines(s.skip(i as int + 1))
        },
        None => seq![s],
    }
}

/// The entries found in the lines, line after line; blank lines are skipped.
pub open spec fn parse_lines(lines: Seq<Seq<char>>) -> Seq<CableEntry>
    decreases lines.len(),
{
    if lines.len() == 0 {
        seq![]
    } else {
        let found = parse_lines(lines.drop_last());
        let line = trim(lines.last());
        if line.len() == 0 {
            found
        } else {
            push_all(found, line_values(line))
        }
    }
}

/// The cable entries of a `programmer_cli` output.
pub open spec fn spec_parse_cable_entries(text: Seq<char>) -> Seq<CableEntry> {
    parse_lines(split_lines(text))
}

/// Every non-blank line of `text` can be sliced at its labels: the inputs on
/// which parsing does not panic.
pub open spec fn cable_text_ok(text: Seq<char>) -> bool {
    forall|i: int|
        0 <= i < split_lines(text).len() && trim(#[trigger] split_lines(text)[i]).len() > 0
            ==> line_slices_ok(trim(split_lines(text)[i]))
}

/// Stripping the suffix of a stripped name changes nothing.
pub proof fn strip_cable_suffix_idempotent(name: Seq<char>)
    ensures
        spec_strip_cable_suffix(spec_strip_cable_suffix(name)) == spec_strip_cable_suffix(name),
{
    let t = trim(name);
    lemma_trim_class_idempotent(name, CharClass::Whitespace);
    if t.len() == 0 {
        assert(trim(Seq::<char>::empty()) =~= Seq::<char>::empty()) by {
            assert(trim_start_class(Seq::<char>::empty(), CharClass::Whitespace) =~= Seq::<
                char,
            >::empty());
        }
    } else if count_char(t, '/') >= 2 {
        match find(t, seq!['/']) {
            Some(p) => {
                lemma_find_from(t, seq!['/'], 0);
                let h = t.take(p as int);
                assert forall|j: int| 0 <= j < h.len() implies h[j] != '/' by {
                    assert(!occurs_at(t, seq!['/'], j));
                    assert(t.subrange(j, j + 1) =~= seq![t[j]]);
                }
                let (a, b) = lemma_trim_class(h, CharClass::Whitespace);
                let r = trim(h);
                assert forall|j: int| 0 <= j < r.len() implies r[j] != '/' by {
                    assert(r[j] == h[a + j]);
                }
                lemma_count_char_absent(r, '/');
                lemma_trim_class_idempotent(h, CharClass::Whitespace);
            },
            None => {},
        }
    } else {
    }
}

/// A stripped name holds at most one `/`, so `programmer_cli --cable` accepts it.
pub proof fn strip_cable_suffix_leaves_one_slash_at_most(name: Seq<char>)
    ensures
        count_char(spec_strip_cable_suffix(name), '/') < 2,
{
    let t = trim(name);
    if t.len() == 0 {
        lemma_count_char_absent(Seq::<char>::empty(), '/');
    } else if count_char(t, '/') >= 2 {
        match find(t, seq!['/']) {
            Some(p) => {
                lemma_find_from(t, seq!['/'], 0);
                let h = t.take(p as int);
                assert forall|j: int| 0 <= j < h.len() implies h[j] != '/' by {
                    assert(!occurs_at(t, seq!['/'], j));
                    assert(t.subrange(j, j + 1) =~= seq![t[j]]);
                }
                let (a, b) = lemma_trim_class(h, CharClass::Whitespace);
                let r = trim(h);
                assert forall|j: int| 0 <= j < r.len() implies r[j] != '/' by {
                    assert(r[j] == h[a + j]);
                }
                lemma_count_char_absent(r, '/');
            },
            None => {
                lemma_find_from(t, seq!['/'], 0);
                assert(false) by {
                    lemma_count_nonzero_has(t, '/');
                    let j = choose|j: int| 0 <= j < t.len() && t[j] == '/';
                    assert(t.subrange(j, j + 1) =~= seq!['/']);
                    assert(occurs_at(t, seq!['/'], j));
                }
            },
        }
    }
}

/// What every parsed entry satisfies.
pub open spec fn entry_well_formed(e: CableEntry) -> bool {
    &&& spec_strip_cable_suffix(e.name) == e.name
    &&& count_char(e.name, '/') < 2
    &&& e.name.len() > 0
    &&& byte_len(e.name) >= 3
    &&& cable_like(spec_to_lowercase(e.name))
}

/// The entries have distinct names and are well formed.
pub open spec fn entries_well_formed(found: Seq<CableEntry>) -> bool {
    &&& forall|i: int, j: int| 0 <= i < j < found.len() ==> #[trigger] found[i].name != #[trigger] found[j].name
    &&& forall|i: int| 0 <= i < found.len() ==> entry_well_formed(#[trigger] found[i])
}

/// No name occurs twice.
pub open spec fn names_distinct(found: Seq<CableEntry>) -> bool {
    forall|i: int, j: int| 0 <= i < j < found.len() ==> #[trigger] found[i].name != #[trigger] found[j].name
}

/// One candidate adds at most one entry, keeps every entry found before in
/// place, and keeps the names distinct (a name already found is not added again).
pub proof fn push_entry_keeps_entries(found: Seq<CableEntry>, candidate: Seq<char>)
    requires
        names_distinct(found),
    ensures
        names_distinct(push_entry(found, candidate)),
        found.len() <= push_entry(found, candidate).len() <= found.len() + 1,
        push_entry(found, candidate).take(found.len() as int) == found,
{
    let r = push_entry(found, candidate);
    match entry_of(candidate) {
        Some(e) => {
            if !has_name(found, e.name) {
                assert forall|i: int, j: int| 0 <= i < j < r.len() implies #[trigger] r[i].name
                    != #[trigger] r[j].name by {
                    if j == found.len() {
                        assert(r[i] == found[i]);
                    } else {
                        assert(found[i].name != found[j].name);
                    }
                }
                assert(r.take(found.len() as int) =~= found);
            } else {
                assert(r.take(found.len() as int) =~= found);
            }
        },
        None => {
            assert(r.take(found.len() as int) =~= found);
        },
    }
}

proof fn lemma_push_entry_well_formed(found: Seq<CableEntry>, candidate: Seq<char>)
    requires
        entries_well_formed(found),
    ensures
        entries_well_formed(push_entry(found, candidate)),
{
    match entry_of(candidate) {
        Some(e) => {
            let t = clean_value(candidate);
            let parts = split_cable_value(t);
            strip_cable_suffix_idempotent(parts.0);
            strip_cable_suffix_leaves_one_slash_at_most(parts.0);
            if !has_name(found, e.name) {
                let r = found.push(e);
                assert forall|i: int, j: int| 0 <= i < j < r.len() implies #[trigger] r[i].name
                    != #[trigger] r[j].name by {
                    if j == found.len() {
                        assert(r[i] == found[i]);
                    } else {
                        assert(found[i].name != found[j].name);
                    }
                }
                assert forall|i: int| 0 <= i < r.len() implies entry_well_formed(#[trigger] r[i]) by {
                    if i < found.len() {
                        assert(r[i] == found[i]);
                    }
                }
            }
        },
        None => {},
    }
}

proof fn lemma_push_all_well_formed(found: Seq<CableEntry>, cands: Seq<Seq<char>>)
    requires
        entries_well_formed(found),
    ensures
        entries_well_formed(push_all(found, cands)),
    decreases cands.len(),
{
    if cands.len() > 0 {
        lemma_push_all_well_formed(found, cands.drop_last());
        lemma_push_entry_well_formed(push_all(found, cands.drop_last()), cands.last());
    }
}

proof fn lemma_parse_lines_well_formed(lines: Seq<Seq<char>>)
    ensures
        entries_well_formed(parse_lines(lines)),
    decreases lines.len(),
{
    if lines.len() > 0 {
        lemma_parse_lines_well_formed(lines.drop_last());
        let line = trim(lines.last());
        if line.len() > 0 {
            lemma_push_all_well_formed(parse_lines(lines.drop_last()), line_values(line));
        }
    }
}

/// Parsing never reports one name twice, and every reported name is free of a
/// device-id suffix (at most one `/`), non-empty, at least three bytes long
/// and, lower-cased, looks like a cable.
pub proof fn parsed_entries_well_formed(text: Seq<char>)
    ensures
        entries_well_formed(spec_parse_cable_entries(text)),
{
    lemma_parse_lines_well_formed(split_lines(text));
}

proof fn lemma_push_all_extends(found: Seq<CableEntry>, cands: Seq<Seq<char>>)
    ensures
        found.len() <= push_all(found, cands).len(),
        push_all(found, cands).take(found.len() as int) == found,
    decreases cands.len(),
{
    if cands.len() > 0 {
        lemma_push_all_extends(found, cands.drop_last());
        let f = push_all(found, cands.drop_last());
        let r = push_all(found, cands);
        if r != f {
            assert(r.take(found.len() as int) =~= f.take(found.len() as int));
        }
    }
}

/// Later lines only add entries: what the first `i` lines gave is kept, in
/// place and unchanged, so the first entry found under a name is the one kept.
pub proof fn parse_keeps_earlier_entries(lines: Seq<Seq<char>>, i: int)
    requires
        0 <= i <= lines.len(),
    ensures
        parse_lines(lines.take(i)).len() <= parse_lines(lines).len(),
        parse_lines(lines).take(parse_lines(lines.take(i)).len() as int) == parse_lines(lines.take(i)),
    decreases lines.len() - i,
{
    if i == lines.len() {
        assert(lines.take(i) =~= lines);
        assert(parse_lines(lines).take(parse_lines(lines).len() as int) =~= parse_lines(lines));
    } else {
        parse_keeps_earlier_entries(lines, i + 1);
        let a = parse_lines(lines.take(i));
        let b = parse_lines(lines.take(i + 1));
        assert(lines.take(i + 1).drop_last() =~= lines.take(i));
        let line = trim(lines.take(i + 1).last());
        if line.len() > 0 {
            lemma_push_all_extends(a, line_values(line));
        } else {
            assert(b.take(a.len() as int) =~= a);
        }
        let full = parse_lines(lines);
        assert(full.take(a.len() as int) =~= full.take(b.len() as int).take(a.len() as int));
    }
}

/// No `c` in `s`.
pub open spec fn lacks(s: Seq<char>, c: char) -> bool {
    forall|k: int| 0 <= k < s.len() ==> #[trigger] s[k] != c
}

proof fn lemma_find_char_after(a: Seq<char>, c: char, b: Seq<char>)
    requires
        lacks(a, c),
    ensures
        find(a + seq![c] + b, seq![c]) == Some(a.len()),
{
    let h = a + seq![c] + b;
    lemma_occurs_char(h, c, a.len() as int);
    assert forall|j: int| 0 <= j < a.len() implies !occurs_at(h, seq![c], j) by {
        lemma_occurs_char(h, c, j);
        assert(h[j] == a[j]);
    }
    lemma_find_first(h, seq![c], a.len() as int);
}

/// The quoted values of a line: the text between its first two double quotes,
/// trimmed, comes first, and the rest of the line after the closing quote gives
/// the others.
pub proof fn quoted_value_between_quotes(p: Seq<char>, v: Seq<char>, rest: Seq<char>)
    requires
        lacks(p, '"'),
        lacks(v, '"'),
    ensures
        quoted_values(p + seq!['"'] + v + seq!['"'] + rest) == seq![trim(v)] + quoted_values(rest),
{
    let line = p + seq!['"'] + v + seq!['"'] + rest;
    let tail = v + seq!['"'] + rest;
    assert(line =~= p + seq!['"'] + tail);
    lemma_find_char_after(p, '"', tail);
    assert(line.skip(p.len() as int + 1) =~= tail);
    lemma_find_char_after(v, '"', rest);
    assert(tail.take(v.len() as int) =~= v);
    assert(tail.skip(v.len() as int + 1) =~= rest);
}

/// The lines joined with `sep` between each two of them.
pub open spec fn join_lines(lines: Seq<Seq<char>>, sep: Seq<char>) -> Seq<char>
    decreases lines.len(),
{
    if lines.len() == 0 {
        Seq::empty()
    } else if lines.len() == 1 {
        lines[0]
    } else {
        lines[0] + sep + join_lines(lines.drop_first(), sep)
    }
}

/// Each line of `b` is the line of `a` at the same place, possibly with a
/// carriage return after it.
spec fn same_but_cr(a: Seq<Seq<char>>, b: Seq<Seq<char>>) -> bool {
    a.len() == b.len() && forall|i: int| 0 <= i < a.len() ==> #[trigger] b[i] == a[i] || b[i] == a[i].push(
        '\r',
    )
}

proof fn lemma_split_single(a: Seq<char>)
    requires
        lacks(a, '\n'),
    ensures
        split_lines(a) == seq![a],
{
    lemma_find_from(a, seq!['\n'], 0);
    if find(a, seq!['\n']) is Some {
        let k = find(a, seq!['\n'])->0;
        lemma_occurs_char(a, '\n', k as int);
    }
}

proof fn lemma_split_after(first: Seq<char>, t: Seq<char>)
    requires
        lacks(first, '\n'),
    ensures
        split_lines(first + seq!['\n'] + t) == seq![first] + split_lines(t),
{
    let h = first + seq!['\n'] + t;
    lemma_find_char_after(first, '\n', t);
    assert(h.take(first.len() as int) =~= first);
    assert(h.skip(first.len() as int + 1) =~= t);
}

proof fn lemma_lacks_push(a: Seq<char>)
    requires
        lacks(a, '\n'),
    ensures
        lacks(a.push('\r'), '\n'),
{
    assert forall|k: int| 0 <= k < a.push('\r').len() implies #[trigger] a.push('\r')[k] != '\n' by {
        if k < a.len() {
            assert(a.push('\r')[k] == a[k]);
        }
    }
}

proof fn lemma_split_joined(lines: Seq<Seq<char>>, cr: bool)
    requires
        lines.len() > 0,
        forall|i: int| 0 <= i < lines.len() ==> lacks(#[trigger] lines[i], '\n'),
    ensures
        same_but_cr(
            lines,
            split_lines(join_lines(lines, if cr { seq!['\r', '\n'] } else { seq!['\n'] })),
        ),
        !cr ==> split_lines(join_lines(lines, seq!['\n'])) == lines,
    decreases lines.len(),
{
    let sep: Seq<char> = if cr { seq!['\r', '\n'] } else { seq!['\n'] };
    if lines.len() == 1 {
        assert(lacks(lines[0], '\n'));
        lemma_split_single(lines[0]);
        assert(split_lines(join_lines(lines, sep)) =~= lines);
    } else {
        let rest = lines.drop_first();
        assert forall|i: int| 0 <= i < rest.len() implies lacks(#[trigger] rest[i], '\n') by {
            assert(rest[i] == lines[i + 1]);
        }
        lemma_split_joined(rest, cr);
        let jr = join_lines(rest, sep);
        let sr = split_lines(jr);
        assert(lacks(lines[0], '\n'));
        let first = if cr { lines[0].push('\r') } else { lines[0] };
        if cr {
            lemma_lacks_push(lines[0]);
        }
        assert(join_lines(lines, sep) =~= first + seq!['\n'] + jr);
        lemma_split_after(first, jr);
        let sp = seq![first] + sr;
        assert(split_lines(join_lines(lines, sep)) == sp);
        assert forall|i: int| 0 <= i < lines.len() implies #[trigger] sp[i] == lines[i] || sp[i]
            == lines[i].push('\r') by {
            if i > 0 {
                assert(sp[i] == sr[i - 1]);
                assert(rest[i - 1] == lines[i]);
                assert(sr[i - 1] == rest[i - 1] || sr[i - 1] == rest[i - 1].push('\r'));
            }
        }
        if !cr {
            assert(sr == rest);
            assert(sp =~= lines);
        }
    }
}

proof fn lemma_parse_ignores_cr(a: Seq<Seq<char>>, b: Seq<Seq<char>>)
    requires
        same_but_cr(a, b),
    ensures
        parse_lines(a) == parse_lines(b),
    decreases a.len(),
{
    if a.len() > 0 {
        let n = a.len() - 1;
        assert(b[n] == a[n] || b[n] == a[n].push('\r'));
        if b[n] != a[n] {
            trim_ignores_blank_ends(a[n], '\r');
        }
        assert forall|i: int| 0 <= i < a.drop_last().len() implies #[trigger] b.drop_last()[i]
            == a.drop_last()[i] || b.drop_last()[i] == a.drop_last()[i].push('\r') by {
            assert(b[i] == a[i] || b[i] == a[i].push('\r'));
        }
        lemma_parse_ignores_cr(a.drop_last(), b.drop_last());
    }
}

/// Windows line breaks parse as plain ones: the lines joined by `\r\n`, as
/// `programmer_cli` prints them on Windows, give the same cable entries as the
/// same lines joined by `\n`.
pub proof fn crlf_parses_like_lf(lines: Seq<Seq<char>>)
    requires
        forall|i: int| 0 <= i < lines.len() ==> lacks(#[trigger] lines[i], '\n'),
    ensures
        spec_parse_cable_entries(join_lines(lines, seq!['\r', '\n'])) == spec_parse_cable_entries(
            join_lines(lines, seq!['\n']),
        ),
{
    if lines.len() > 0 {
        lemma_split_joined(lines, true);
        lemma_split_joined(lines, false);
        let b = split_lines(join_lines(lines, seq!['\r', '\n']));
        lemma_parse_ignores_cr(lines, b);
    }
}

// ---------------------------------------------------------------------------
// Executable side.
// ---------------------------------------------------------------------------

/// A cable entry during parsing, held as characters.
struct Entry {
    name: Vec<char>,
    index: Option<Vec<char>>,
    location: Option<Vec<char>>,
}

spec fn opt_seq(o: Option<Vec<char>>) -> Option<Seq<char>> {
    match o {
        Some(v) => Some(v@),
        None => None,
    }
}

spec fn entry_view(e: Entry) -> CableEntry {
    CableEntry { name: e.name@, index: opt_seq(e.index), location: opt_seq(e.location) }
}

spec fn entries_view(v: Seq<Entry>) -> Seq<CableEntry> {
    v.map_values(|e: Entry| entry_view(e))
}

fn strip_suffix_chars(name: &[char]) -> (r: Vec<char>)
    ensures
        r@ == spec_strip_cable_suffix(name@),
{
    let t = trim_chars(name);
    if t.len() == 0 {
        return Vec::new();
    }
    if count_char_chars(&t, '/') >= 2 {
        match find_chars(&t, &single('/')) {
            Some(p) => {
                let head = slice_chars(&t, 0, p);
                proof {
                    assert(t@.subrange(0, p as int) =~= t@.take(p as int));
                }
                return trim_chars(&head);
            },
            None => {
                return t;
            },
        }
    }
    t
}

/// Removes a device-id suffix of two or more `/segment`s from a cable name, so
/// that it can be handed to `programmer_cli --cable`; the name is trimmed.
pub fn strip_cable_suffix(name: &str) -> (r: String)
    ensures
        r@ == spec_strip_cable_suffix(name@),
{
    let chars = chars_of(name);
    let stripped = strip_suffix_chars(&chars);
    string_of(&stripped)
}


spec fn opt_entry_view(o: Option<Entry>) -> Option<CableEntry> {
    match o {
        Some(e) => Some(entry_view(e)),
        None => None,
    }
}

fn non_empty_chars(s: Vec<char>) -> (r: Option<Vec<char>>)
    ensures
        opt_seq(r) == non_empty(s@),
{
    if s.len() == 0 {
        None
    } else {
        Some(s)
    }
}

fn first_segment_chars(s: &[char]) -> (r: Vec<char>)
    ensures
        r@ == first_segment(s@),
{
    match find_chars(s, &single('/')) {
        Some(q) => {
            proof {
                assert(s@.subrange(0, q as int) =~= s@.take(q as int));
            }
            slice_chars(s, 0, q)
        },
        None => slice_all(s),
    }
}

fn last_segment_chars(s: &[char]) -> (r: Vec<char>)
    ensures
        r@ == last_segment(s@),
{
    let len = s.len();
    match rfind_char_chars(s, '/') {
        Some(q) => {
            assert(q < len);
            proof {
                assert(s@.subrange(q + 1, s@.len() as int) =~= s@.skip(q + 1));
            }
            slice_chars(s, q + 1, s.len())
        },
        None => slice_all(s),
    }
}

fn split_value_chars(t: Vec<char>) -> (r: (Vec<char>, Option<Vec<char>>, Option<Vec<char>>))
    ensures
        (r.0@, opt_seq(r.1), opt_seq(r.2)) == split_cable_value(t@),
{
    if count_char_chars(&t, '/') >= 2 {
        match find_chars(&t, &single('/')) {
            Some(p) => {
                let tail = slice_chars(&t, p + 1, t.len());
                proof {
                    assert(tail@ =~= t@.skip(p as int + 1));
                    assert(t@.subrange(0, p as int) =~= t@.take(p as int));
                }
                let head = trim_chars(&slice_chars(&t, 0, p));
                let idx = non_empty_chars(trim_chars(&first_segment_chars(&tail)));
                let loc = match rfind_char_chars(&tail, '/') {
                    Some(q) => {
                        proof {
                            assert(tail@.subrange(0, q as int) =~= tail@.take(q as int));
                        }
                        let u = slice_chars(&tail, 0, q);
                        non_empty_chars(trim_chars(&last_segment_chars(&u)))
                    },
                    None => None,
                };
                (head, idx, loc)
            },
            None => (t, None, None),
        }
    } else {
        (t, None, None)
    }
}

fn clean_value_chars(s: &[char]) -> (r: Vec<char>)
    ensures
        r@ == clean_value(s@),
{
    let a = trim_chars(s);
    let b = trim_class_chars(&a, CharClass::Quote);
    trim_chars(&b)
}

fn cable_like_chars(low: &[char]) -> (b: bool)
    ensures
        b == cable_like(low@),
{
    contains_chars(low, &chars_of("cable")) || contains_chars(low, &chars_of("gowin"))
        || contains_chars(low, &chars_of("ft2ch")) || contains_chars(low, &chars_of("ft2232"))
        || contains_chars(low, &chars_of("ft232")) || contains_chars(low, &chars_of("ft60x")) || (
    contains_chars(low, &chars_of("usb")) && (contains_chars(low, &chars_of("debugger"))
        || contains_chars(low, &chars_of("debug")))) || contains_chars(low, &chars_of("jtag"))
}

/// Whether a lower-cased name looks like a programming cable: it mentions a
/// cable, Gowin, an FTDI chip, JTAG, or USB together with a debugger.
pub fn is_cable_like(lowered: &str) -> (b: bool)
    ensures
        b == cable_like(lowered@),
{
    cable_like_chars(&chars_of(lowered))
}

fn candidate_name_chars(candidate: &[char]) -> (r: Vec<char>)
    ensures
        r@ == candidate_name(candidate@),
{
    let t = clean_value_chars(candidate);
    let (n0, _idx, _loc) = split_value_chars(t);
    strip_suffix_chars(&n0)
}

/// The name a candidate value gives, before it is tested for looking like a
/// cable: the value cleaned of blanks and quotes, without its index, location
/// and device-id suffix.
pub fn candidate_cable_name(candidate: &str) -> (r: String)
    ensures
        r@ == candidate_name(candidate@),
{
    string_of(&candidate_name_chars(&chars_of(candidate)))
}

fn entry_given_chars(candidate: &[char], low: &[char]) -> (r: Option<Entry>)
    ensures
        opt_entry_view(r) == entry_given(candidate@, low@),
{
    let t = clean_value_chars(candidate);
    if t.len() == 0 {
        return None;
    }
    let (n0, idx, loc) = split_value_chars(t);
    let name = strip_suffix_chars(&n0);
    if name.len() == 0 || byte_len_chars(&name) < 3 {
        return None;
    }
    if !cable_like_chars(low) {
        return None;
    }
    Some(Entry { name, index: idx, location: loc })
}

fn entry_of_chars(candidate: &[char]) -> (r: Option<Entry>)
    ensures
        opt_entry_view(r) == entry_of(candidate@),
{
    let name = candidate_name_chars(candidate);
    let low = lowercase_chars(&name);
    entry_given_chars(candidate, &low)
}

fn info_of_entry(e: Entry) -> (r: CableInfo)
    ensures
        r@ == entry_view(e),
{
    let index = match &e.index {
        Some(v) => Some(string_of(v)),
        None => None,
    };
    let location = match &e.location {
        Some(v) => Some(string_of(v)),
        None => None,
    };
    CableInfo { name: string_of(&e.name), index, location }
}

/// The entry that a candidate value yields, given `lowered_name`, the
/// lower-cased [`candidate_cable_name`] of the candidate.
pub fn entry_given_lowercase(candidate: &str, lowered_name: &str) -> (r: Option<CableInfo>)
    ensures
        match r {
            Some(c) => entry_given(candidate@, lowered_name@) == Some(c@),
            None => entry_given(candidate@, lowered_name@) is None,
        },
{
    match entry_given_chars(&chars_of(candidate), &chars_of(lowered_name)) {
        Some(e) => Some(info_of_entry(e)),
        None => None,
    }
}

spec fn seqs_view(v: Seq<Vec<char>>) -> Seq<Seq<char>> {
    v.map_values(|x: Vec<char>| x@)
}

/// The values of a list of cable infos.
pub open spec fn infos_view(v: Seq<CableInfo>) -> Seq<CableEntry> {
    v.map_values(|c: CableInfo| c@)
}

/// Every name is already free of a device-id suffix.
spec fn names_stable(found: Seq<CableEntry>) -> bool {
    forall|i: int| 0 <= i < found.len() ==> spec_strip_cable_suffix(#[trigger] found[i].name) == found[i].name
}

proof fn lemma_entry_name_stable(candidate: Seq<char>)
    ensures
        entry_of(candidate) matches Some(e) ==> spec_strip_cable_suffix(e.name) == e.name,
{
    let t = clean_value(candidate);
    let parts = split_cable_value(t);
    strip_cable_suffix_idempotent(parts.0);
}

fn has_name_exec(found: &Vec<Entry>, name: &[char]) -> (b: bool)
    ensures
        b == has_name(entries_view(found@), name@),
{
    let mut i: usize = 0;
    while i < found.len()
        invariant
            i <= found@.len(),
            forall|m: int| 0 <= m < i ==> found@[m].name@ != name@,
        decreases found@.len() - i,
    {
        if chars_eq(&found[i].name, name) {
            proof {
                assert(entries_view(found@)[i as int].name == name@);
            }
            return true;
        }
        i += 1;
    }
    proof {
        assert forall|m: int| 0 <= m < entries_view(found@).len() implies #[trigger] entries_view(
            found@,
        )[m].name != name@ by {
            assert(entries_view(found@)[m] == entry_view(found@[m]));
        }
    }
    false
}

fn push_entry_exec(found: &mut Vec<Entry>, candidate: &[char])
    requires
        names_stable(entries_view(old(found)@)),
    ensures
        entries_view(final(found)@) == push_entry(entries_view(old(found)@), candidate@),
        names_stable(entries_view(final(found)@)),
{
    proof {
        lemma_entry_name_stable(candidate@);
    }
    match entry_of_chars(candidate) {
        Some(e) => {
            if !has_name_exec(found, &e.name) {
                let ghost ev = entry_view(e);
                found.push(e);
                proof {
                    assert(entries_view(found@) =~= entries_view(old(found)@).push(ev));
                }
            }
        },
        None => {},
    }
}

fn has_info_name(found: &Vec<CableInfo>, name: &[char]) -> (b: bool)
    ensures
        b == has_name(infos_view(found@), name@),
{
    let mut i: usize = 0;
    while i < found.len()
        invariant
            i <= found@.len(),
            forall|m: int| 0 <= m < i ==> found@[m].name@ != name@,
        decreases found@.len() - i,
    {
        if chars_eq(&chars_of(found[i].name.as_str()), name) {
            proof {
                assert(infos_view(found@)[i as int].name == name@);
            }
            return true;
        }
        i += 1;
    }
    proof {
        assert forall|m: int| 0 <= m < infos_view(found@).len() implies #[trigger] infos_view(
            found@,
        )[m].name != name@ by {
            assert(infos_view(found@)[m] == found@[m]@);
        }
    }
    false
}

/// Adds the entry of `candidate` to `found`, unless the candidate is rejected or
/// an entry of that name is already there: at most one entry is added, the
/// earlier ones stay in place, and distinct names stay distinct.
pub fn push_cable_entry(found: &mut Vec<CableInfo>, candidate: &str)
    ensures
        infos_view(final(found)@) == push_entry(infos_view(old(found)@), candidate@),
        old(found)@.len() <= final(found)@.len() <= old(found)@.len() + 1,
        infos_view(final(found)@).take(old(found)@.len() as int) == infos_view(old(found)@),
        names_distinct(infos_view(old(found)@)) ==> names_distinct(infos_view(final(found)@)),
{
    let ghost before = infos_view(found@);
    match entry_of_chars(&chars_of(candidate)) {
        Some(e) => {
            if !has_info_name(found, &e.name) {
                let info = info_of_entry(e);
                found.push(info);
                proof {
                    assert(infos_view(found@) =~= before.push(info@));
                }
            }
        },
        None => {},
    }
    proof {
        assert(infos_view(found@).len() == found@.len());
        assert(before.len() == old(found)@.len());
        if names_distinct(before) {
            push_entry_keeps_entries(before, candidate@);
        } else {
            assert(push_entry(before, candidate@).take(before.len() as int) =~= before);
        }
    }
}

fn push_all_exec(found: &mut Vec<Entry>, cands: &Vec<Vec<char>>)
    requires
        names_stable(entries_view(old(found)@)),
    ensures
        entries_view(final(found)@) == push_all(entries_view(old(found)@), seqs_view(cands@)),
        names_stable(entries_view(final(found)@)),
{
    let ghost f0 = entries_view(found@);
    let mut i: usize = 0;
    proof {
        assert(seqs_view(cands@).take(0) =~= Seq::<Seq<char>>::empty());
    }
    while i < cands.len()
        invariant
            i <= cands@.len(),
            f0 == entries_view(old(found)@),
            entries_view(found@) == push_all(f0, seqs_view(cands@).take(i as int)),
            names_stable(entries_view(found@)),
        decreases cands@.len() - i,
    {
        push_entry_exec(found, &cands[i]);
        proof {
            let sv = seqs_view(cands@);
            assert(sv.take(i + 1).drop_last() =~= sv.take(i as int));
            assert(sv.take(i + 1).last() == cands@[i as int]@);
        }
        i += 1;
    }
    proof {
        assert(seqs_view(cands@).take(cands@.len() as int) =~= seqs_view(cands@));
    }
}

/// The lower-cased labels as character vectors.
fn cable_labels_exec() -> (r: Vec<Vec<char>>)
    ensures
        seqs_view(r@) == cable_labels(),
{
    let mut r: Vec<Vec<char>> = Vec::new();
    r.push(chars_of("target cable:"));
    r.push(chars_of("cable found:"));
    r.push(chars_of("cable:"));
    r.push(chars_of("cable name:"));
    proof {
        assert(seqs_view(r@) =~= cable_labels());
    }
    r
}

fn label_value_start_exec(line: &[char], low: &[char], label: &[char]) -> (r: Option<u128>)
    ensures
        r matches Some(b) ==> label_value_start(line@, low@, label@) == Some(b as nat),
        r is None ==> label_value_start(line@, low@, label@) is None,
{
    match find_chars(low, label) {
        Some(k) => {
            let pre = slice_subrange(low, 0, k);
            proof {
                assert(pre@ =~= low@.take(k as int));
            }
            let _pl = pre.len();
            let _ll = label.len();
            Some(byte_len_chars(pre) + byte_len_chars(label))
        },
        None => None,
    }
}

/// The label values of `line`, given its lower-cased form `low`; `None` when a
/// label offset would split a character of `line`.
fn label_values_exec(line: &[char], low: &[char], labels: &Vec<Vec<char>>) -> (r: Option<
    Vec<Vec<char>>,
>)
    requires
        seqs_view(labels@) == cable_labels(),
    ensures
        r is Some <==> labels_slice_ok(line@, low@),
        r matches Some(v) ==> seqs_view(v@) == labels_values(line@, low@, cable_labels()),
{
    let mut out: Vec<Vec<char>> = Vec::new();
    let ll = line.len();
    let mut i: usize = 0;
    proof {
        assert(cable_labels().take(0) =~= Seq::<Seq<char>>::empty());
        assert(seqs_view(out@) =~= Seq::<Seq<char>>::empty());
    }
    while i < labels.len()
        invariant
            i <= labels@.len(),
            ll == line@.len(),
            seqs_view(labels@) == cable_labels(),
            forall|m: int| 0 <= m < i ==> label_slice_ok(line@, low@, #[trigger] cable_labels()[m]),
            seqs_view(out@) == labels_values(line@, low@, cable_labels().take(i as int)),
        decreases labels@.len() - i,
    {
        let ghost label = cable_labels()[i as int];
        let ghost before = seqs_view(out@);
        proof {
            assert(label == labels@[i as int]@);
            assert(cable_labels().take(i + 1).drop_last() =~= cable_labels().take(i as int));
            assert(cable_labels().take(i + 1).last() == label);
        }
        match label_value_start_exec(line, low, &labels[i]) {
            Some(b) => {
                match index_at_byte_chars(line, b) {
                    Some(j) => {
                        let value = clean_value_chars(slice_subrange(line, j, ll));
                        proof {
                            assert(line@.subrange(j as int, ll as int) =~= line@.skip(j as int));
                        }
                        let ghost vv = value@;
                        out.push(value);
                        proof {
                            assert(seqs_view(out@) =~= before + seq![vv]);
                        }
                    },
                    None => {
                        proof {
                            assert(!label_slice_ok(line@, low@, cable_labels()[i as int]));
                        }
                        return None;
                    },
                }
            },
            None => {
                proof {
                    assert(before + Seq::<Seq<char>>::empty() =~= before);
                }
            },
        }
        i += 1;
    }
    proof {
        assert(cable_labels().take(labels@.len() as int) =~= cable_labels());
    }
    Some(out)
}

/// The values that the labels of `line` introduce (`Target Cable:`,
/// `Cable found:`, `Cable:`, `Cable Name:`, matched in `lowered`, the
/// lower-cased line), each cleaned of blanks and quotes; `None` when a label
/// offset, taken in `lowered`, would split a character of `line`.
pub fn label_values_given_lowercase(line: &str, lowered: &str) -> (r: Option<Vec<String>>)
    ensures
        r is Some <==> labels_slice_ok(line@, lowered@),
        r matches Some(v) ==> v@.map_values(|s: String| s@) == labels_values(
            line@,
            lowered@,
            cable_labels(),
        ),
{
    let lc = chars_of(line);
    let lw = chars_of(lowered);
    let labels = cable_labels_exec();
    match label_values_exec(&lc, &lw, &labels) {
        Some(vals) => {
            let mut out: Vec<String> = Vec::new();
            let mut i: usize = 0;
            while i < vals.len()
                invariant
                    i <= vals@.len(),
                    out@.map_values(|s: String| s@) == seqs_view(vals@).take(i as int),
                decreases vals@.len() - i,
            {
                let s = string_of(&vals[i]);
                let ghost old_out = out@.map_values(|s: String| s@);
                out.push(s);
                proof {
                    assert(out@.map_values(|s: String| s@) =~= old_out.push(s@));
                    assert(seqs_view(vals@).take(i + 1) =~= seqs_view(vals@).take(i as int).push(
                        vals@[i as int]@,
                    ));
                }
                i += 1;
            }
            proof {
                assert(seqs_view(vals@).take(vals@.len() as int) =~= seqs_view(vals@));
            }
            Some(out)
        },
        None => None,
    }
}

/// Whether every label of `line` can be sliced on.
fn line_slices_ok_exec(line: &[char], labels: &Vec<Vec<char>>) -> (b: bool)
    requires
        seqs_view(labels@) == cable_labels(),
    ensures
        b == line_slices_ok(line@),
{
    let low = lowercase_chars(line);
    label_values_exec(line, &low, labels).is_some()
}

fn quoted_values_exec(line: &[char]) -> (r: Vec<Vec<char>>)
    ensures
        seqs_view(r@) == quoted_values(line@),
{
    let mut out: Vec<Vec<char>> = Vec::new();
    let mut rest: &[char] = line;
    loop
        invariant
            seqs_view(out@) + quoted_values(rest@) == quoted_values(line@),
        decreases rest@.len(),
    {
        proof {
            lemma_find_from(rest@, seq!['"'], 0);
        }
        match find_chars(rest, &single('"')) {
            None => {
                proof {
                    assert(seqs_view(out@) + Seq::<Seq<char>>::empty() =~= seqs_view(out@));
                }
                return out;
            },
            Some(s) => {
                let rl = rest.len();
                let after = slice_subrange(rest, s + 1, rl);
                proof {
                    assert(after@ =~= rest@.skip(s as int + 1));
                    lemma_find_from(after@, seq!['"'], 0);
                }
                match find_chars(after, &single('"')) {
                    None => {
                        proof {
                            assert(seqs_view(out@) + Seq::<Seq<char>>::empty() =~= seqs_view(
                                out@,
                            ));
                        }
                        return out;
                    },
                    Some(e) => {
                        let v = trim_chars(slice_subrange(after, 0, e));
                        let next = slice_subrange(after, e + 1, after.len());
                        proof {
                            assert(after@.subrange(0, e as int) =~= after@.take(e as int));
                            assert(next@ =~= after@.skip(e as int + 1));
                        }
                        let ghost old_out = seqs_view(out@);
                        out.push(v);
                        proof {
                            assert(seqs_view(out@) =~= old_out.push(v@));
                            assert(seqs_view(out@) + quoted_values(next@) =~= old_out + (seq![v@]
                                + quoted_values(next@)));
                        }
                        rest = next;
                    },
                }
            },
        }
    }
}

fn list_item_like_chars(low: &[char]) -> (b: bool)
    ensures
        b == list_item_like(low@),
{
    (starts_with_chars(low, &chars_of("gowin")) && contains_chars(low, &chars_of("cable")))
        || contains_chars(low, &chars_of("usb cable")) || contains_chars(low, &chars_of("ft2ch"))
        || contains_chars(low, &chars_of("ft2232"))
}

/// Whether a lower-cased list item names a Gowin or FTDI cable: it starts with
/// `gowin` and mentions a cable, or mentions `usb cable`, `ft2ch` or `ft2232`.
pub fn is_list_item_like(lowered: &str) -> (b: bool)
    ensures
        b == list_item_like(lowered@),
{
    list_item_like_chars(&chars_of(lowered))
}

fn list_item_text_chars(line: &[char]) -> (r: Vec<char>)
    ensures
        r@ == list_item_text(line@),
{
    trim_chars(&trim_start_class_chars(line, CharClass::ListMarker))
}

/// A line without its list number and surrounding blanks.
pub fn list_item_text_of(line: &str) -> (r: String)
    ensures
        r@ == list_item_text(line@),
{
    string_of(&list_item_text_chars(&chars_of(line)))
}

fn list_item_given_chars(line: &[char], low: &[char]) -> (r: Vec<Vec<char>>)
    ensures
        seqs_view(r@) == list_item_given(line@, low@),
{
    let mut out: Vec<Vec<char>> = Vec::new();
    let stripped = list_item_text_chars(line);
    if stripped.len() > 0 && byte_len_chars(&stripped) <= 80 && list_item_like_chars(low) {
        let ghost sv = stripped@;
        out.push(stripped);
        proof {
            assert(seqs_view(out@) =~= seq![sv]);
        }
        return out;
    }
    proof {
        assert(seqs_view(out@) =~= Seq::<Seq<char>>::empty());
    }
    out
}

/// The list item of `line`, given `lowered`, the lower-cased
/// [`list_item_text_of`] the line: `Some` of that text when it is not empty,
/// has at most 80 bytes and names a cable.
pub fn list_item_given_lowercase(line: &str, lowered: &str) -> (r: Option<String>)
    ensures
        match r {
            Some(s) => list_item_given(line@, lowered@) == seq![s@],
            None => list_item_given(line@, lowered@) == Seq::<Seq<char>>::empty(),
        },
{
    let mut v = list_item_given_chars(&chars_of(line), &chars_of(lowered));
    assert(seqs_view(v@).len() == v@.len());
    if v.len() == 0 {
        proof {
            assert(seqs_view(v@) =~= Seq::<Seq<char>>::empty());
        }
        None
    } else {
        let item = v.pop().unwrap();
        Some(string_of(&item))
    }
}

fn list_item_values_exec(line: &[char]) -> (r: Vec<Vec<char>>)
    ensures
        seqs_view(r@) == list_item_values(line@),
{
    let stripped = list_item_text_chars(line);
    let low = lowercase_chars(&stripped);
    list_item_given_chars(line, &low)
}

fn split_lines_exec(text: &[char]) -> (r: Vec<Vec<char>>)
    ensures
        seqs_view(r@) == split_lines(text@),
{
    let mut out: Vec<Vec<char>> = Vec::new();
    let mut rest: &[char] = text;
    loop
        invariant
            seqs_view(out@) + split_lines(rest@) == split_lines(text@),
        decreases rest@.len(),
    {
        proof {
            lemma_find_from(rest@, seq!['\n'], 0);
        }
        let ghost old_out = seqs_view(out@);
        match find_chars(rest, &single('\n')) {
            None => {
                let v = slice_to_vec(rest);
                out.push(v);
                proof {
                    assert(seqs_view(out@) =~= old_out.push(rest@));
                    assert(seqs_view(out@) =~= old_out + split_lines(rest@));
                }
                return out;
            },
            Some(i) => {
                let v = slice_to_vec(slice_subrange(rest, 0, i));
                let rl = rest.len();
                let next = slice_subrange(rest, i + 1, rl);
                proof {
                    assert(rest@.subrange(0, i as int) =~= rest@.take(i as int));
                    assert(next@ =~= rest@.skip(i as int + 1));
                }
                out.push(v);
                proof {
                    assert(seqs_view(out@) =~= old_out.push(rest@.take(i as int)));
                    assert(seqs_view(out@) + split_lines(next@) =~= old_out + (seq![
                        rest@.take(i as int),
                    ] + split_lines(next@)));
                }
                rest = next;
            },
        }
    }
}


/// Adds the entries of one trimmed, non-blank line.
fn parse_line(found: &mut Vec<Entry>, line: &[char], labels: &Vec<Vec<char>>)
    requires
        seqs_view(labels@) == cable_labels(),
        line_slices_ok(line@),
        names_stable(entries_view(old(found)@)),
    ensures
        entries_view(final(found)@) == push_all(entries_view(old(found)@), line_values(line@)),
        names_stable(entries_view(final(found)@)),
{
    let ghost f0 = entries_view(found@);
    let low = lowercase_chars(line);
    // 0) values introduced by a label such as `Cable found:`.
    let label_vals = match label_values_exec(line, &low, labels) {
        Some(v) => v,
        None => {
            proof {
                assert(false);
            }
            Vec::new()
        },
    };
    let labelled = label_vals.len() > 0;
    push_all_exec(found, &label_vals);
    // 0b) a line mentioning an IDCode re-strips the last name; names are
    // already stripped, so this leaves every entry as it is.
    if contains_chars(&low, &chars_of("idcode")) && found.len() > 0 {
        let last = found.len() - 1;
        let cleaned = strip_suffix_chars(&found[last].name);
        proof {
            assert(entries_view(found@)[last as int] == entry_view(found@[last as int]));
            assert(spec_strip_cable_suffix(entries_view(found@)[last as int].name) == entries_view(
                found@,
            )[last as int].name);
        }
        if cleaned.len() > 0 && !chars_eq(&cleaned, &found[last].name) {
            proof {
                assert(false);
            }
        }
    }
    // 1) names in double quotes.
    let quoted = quoted_values_exec(line);
    push_all_exec(found, &quoted);
    // 2) a numbered list item, on a line that has no label.
    let items = if labelled {
        Vec::new()
    } else {
        list_item_values_exec(line)
    };
    proof {
        if labelled {
            assert(seqs_view(items@) =~= Seq::<Seq<char>>::empty());
        }
    }
    push_all_exec(found, &items);
    proof {
        lemma_push_all_append(f0, line_label_values(line@), quoted_values(line@));
        lemma_push_all_append(
            f0,
            line_label_values(line@) + quoted_values(line@),
            seqs_view(items@),
        );
    }
}

fn entries_to_infos(found: Vec<Entry>) -> (r: Vec<CableInfo>)
    ensures
        infos_view(r@) == entries_view(found@),
{
    let mut r: Vec<CableInfo> = Vec::new();
    let mut i: usize = 0;
    while i < found.len()
        invariant
            i <= found@.len(),
            infos_view(r@) == entries_view(found@).take(i as int),
        decreases found@.len() - i,
    {
        let e = &found[i];
        let index = match &e.index {
            Some(v) => Some(string_of(v)),
            None => None,
        };
        let location = match &e.location {
            Some(v) => Some(string_of(v)),
            None => None,
        };
        let info = CableInfo { name: string_of(&e.name), index, location };
        let ghost old_r = infos_view(r@);
        r.push(info);
        proof {
            assert(infos_view(r@) =~= old_r.push(info@));
            assert(entries_view(found@).take(i + 1) =~= entries_view(found@).take(i as int).push(
                entries_view(found@)[i as int],
            ));
        }
        i += 1;
    }
    proof {
        assert(entries_view(found@).take(found@.len() as int) =~= entries_view(found@));
    }
    r
}

/// Extracts the cable entries (name, index, location) from the output of
/// `programmer_cli`, from lines such as
/// `Target Cable: Gowin USB Cable(FT2CH)`,
/// `Cable found: Gowin USB Cable(FT2CH)/1/321/null`,
/// `Cable Name: Gowin USB Cable(FT2CH)`, `[1] "Gowin USB Cable(FT2CH)"` and
/// `1. Gowin USB Cable(FT2CH)`. A `/idx/loc/null` suffix is split into the
/// index and the location; of two entries with the same name the first is kept.
pub fn parse_cable_entries(text: &str) -> (r: Vec<CableInfo>)
    requires
        cable_text_ok(text@),
    ensures
        infos_view(r@) == spec_parse_cable_entries(text@),
{
    let chars = chars_of(text);
    let lines = split_lines_exec(&chars);
    let labels = cable_labels_exec();
    let mut found: Vec<Entry> = Vec::new();
    let mut i: usize = 0;
    proof {
        assert(seqs_view(lines@).take(0) =~= Seq::<Seq<char>>::empty());
        assert(entries_view(found@) =~= Seq::<CableEntry>::empty());
    }
    while i < lines.len()
        invariant
            i <= lines@.len(),
            seqs_view(lines@) == split_lines(text@),
            seqs_view(labels@) == cable_labels(),
            cable_text_ok(text@),
            entries_view(found@) == parse_lines(seqs_view(lines@).take(i as int)),
            names_stable(entries_view(found@)),
        decreases lines@.len() - i,
    {
        let line = trim_chars(&lines[i]);
        proof {
            let sv = seqs_view(lines@);
            assert(sv.take(i + 1).drop_last() =~= sv.take(i as int));
            assert(sv.take(i + 1).last() == lines@[i as int]@);
            assert(sv[i as int] == lines@[i as int]@);
        }
        if line.len() > 0 {
            parse_line(&mut found, &line, &labels);
        }
        i += 1;
    }
    proof {
        assert(seqs_view(lines@).take(lines@.len() as int) =~= seqs_view(lines@));
    }
    entries_to_infos(found)
}

/// Whether [`parse_cable_entries`] accepts `text`: every label found in a
/// lower-cased line falls on a character boundary of the line itself.
pub fn cable_text_parses(text: &str) -> (b: bool)
    ensures
        b == cable_text_ok(text@),
{
    let chars = chars_of(text);
    let lines = split_lines_exec(&chars);
    let labels = cable_labels_exec();
    let mut i: usize = 0;
    while i < lines.len()
        invariant
            i <= lines@.len(),
            seqs_view(lines@) == split_lines(text@),
            seqs_view(labels@) == cable_labels(),
            forall|m: int|
                0 <= m < i && trim(#[trigger] split_lines(text@)[m]).len() > 0 ==> line_slices_ok(
                    trim(split_lines(text@)[m]),
                ),
        decreases lines@.len() - i,
    {
        let line = trim_chars(&lines[i]);
        proof {
            assert(seqs_view(lines@)[i as int] == lines@[i as int]@);
        }
        if line.len() > 0 && !line_slices_ok_exec(&line, &labels) {
            return false;
        }
        i += 1;
    }
    true
}

/// [`parse_cable_entries`] on the texts that it accepts, `None` on the others
/// (where the label offset would split a character).
pub fn checked_parse_cable_entries(text: &str) -> (r: Option<Vec<CableInfo>>)
    ensures
        r is Some <==> cable_text_ok(text@),
        r matches Some(v) ==> infos_view(v@) == spec_parse_cable_entries(text@),
{
    if cable_text_parses(text) {
        Some(parse_cable_entries(text))
    } else {
        None
    }
}

/// The names of the cable entries of `text`, in order.
pub open spec fn spec_parse_cable_names(text: Seq<char>) -> Seq<Seq<char>> {
    spec_parse_cable_entries(text).map_values(|e: CableEntry| e.name)
}

/// The names of the cable entries of a `programmer_cli` output, in order.
pub fn parse_cable_names(text: &str) -> (r: Vec<String>)
    requires
        cable_text_ok(text@),
    ensures
        r@.map_values(|s: String| s@) == spec_parse_cable_names(text@),
{
    let entries = parse_cable_entries(text);
    let mut names: Vec<String> = Vec::new();
    let mut i: usize = 0;
    while i < entries.len()
        invariant
            i <= entries@.len(),
            infos_view(entries@) == spec_parse_cable_entries(text@),
            names@.map_values(|s: String| s@) == infos_view(entries@).take(i as int).map_values(
                |e: CableEntry| e.name,
            ),
        decreases entries@.len() - i,
    {
        let name = entries[i].name.clone();
        let ghost old_names = names@;
        names.push(name);
        proof {
            let iv = infos_view(entries@);
            assert(iv[i as int] == entries@[i as int]@);
            assert(names@.map_values(|s: String| s@) =~= old_names.map_values(|s: String| s@).push(
                name@,
            ));
            assert(iv.take(i + 1).map_values(|e: CableEntry| e.name) =~= iv.take(
                i as int,
            ).map_values(|e: CableEntry| e.name).push(iv[i as int].name));
        }
        i += 1;
    }
    proof {
        assert(infos_view(entries@).take(entries@.len() as int) =~= infos_view(entries@));
    }
    names
}


/// [`parse_cable_names`] on the texts that it accepts, `None` on the others.
pub fn checked_parse_cable_names(text: &str) -> (r: Option<Vec<String>>)
    ensures
        r is Some <==> cable_text_ok(text@),
        r matches Some(v) ==> v@.map_values(|s: String| s@) == spec_parse_cable_names(text@),
{
    if cable_text_parses(text) {
        Some(parse_cable_names(text))
    } else {
        None
    }
}

} // verus!
