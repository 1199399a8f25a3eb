//! The merge engine: one pass over the lines of an existing settings
//! document, which drops the definitions that the incoming batch replaces
//! and puts the batch in front of the line that closes the template list.
use vstd::prelude::*;
use vstd::string::StringExecFns;
use crate::text::views;
use crate::document::{Marker, LineKind, Markers, marker_of, markers_of, TEMPLATE_SETTINGS_START, TEMPLATE_SETTINGS_END};
use crate::extract::IncomingBatch;

verus! {

/// Where the scan stands before a line: inside a multi-line definition or
/// not, and whether the definition last opened is being dropped.
pub struct ScanState {
    pub inside: bool,
    pub dropping: bool,
}

pub open spec fn initial_state() -> ScanState {
    ScanState { inside: false, dropping: true }
}

/// Whether a line with marker `m`, met in state `s`, is written out.
pub open spec fn keeps_line(s: ScanState, m: Marker, names: Seq<Seq<char>>) -> bool {
    match m {
        Marker::Close => !s.dropping,
        Marker::Open(n) => if s.inside { !s.dropping } else { !names.contains(n) },
        Marker::Single(n) => if s.inside { !s.dropping } else { !names.contains(n) },
        _ => if s.inside { !s.dropping } else { true },
    }
}

/// The state after a line with marker `m`, met in state `s`.
pub open spec fn next_state(s: ScanState, m: Marker, names: Seq<Seq<char>>) -> ScanState {
    match m {
        Marker::Close => ScanState { inside: false, dropping: s.dropping },
        Marker::Open(n) => if s.inside { s } else { ScanState { inside: true, dropping: names.contains(n) } },
        _ => s,
    }
}

/// Whether the incoming batch is written just before a line with marker
/// `m`, met in state `s`.
pub open spec fn inserts_batch(s: ScanState, m: Marker) -> bool {
    !s.inside && m is ListEnd
}

/// The state of the scan before line `i`.
pub open spec fn state_at(marks: Seq<Marker>, names: Seq<Seq<char>>, i: int) -> ScanState
    decreases i,
{
    if i <= 0 {
        initial_state()
    } else {
        next_state(state_at(marks, names, i - 1), marks[i - 1], names)
    }
}

/// What line `i` turns into: the batch where it goes before this line,
/// then the line with its line break where it is kept.
pub open spec fn line_output(
    lines: Seq<Seq<char>>,
    marks: Seq<Marker>,
    names: Seq<Seq<char>>,
    batch: Seq<char>,
    i: int,
) -> Seq<char> {
    let s = state_at(marks, names, i);
    (if inserts_batch(s, marks[i]) { batch } else { Seq::empty() }) + (if keeps_line(s, marks[i], names) {
        lines[i].push('\n')
    } else {
        Seq::empty()
    })
}

/// The output for the first `n` lines, in their order.
pub open spec fn merged_upto(
    lines: Seq<Seq<char>>,
    marks: Seq<Marker>,
    names: Seq<Seq<char>>,
    batch: Seq<char>,
    n: int,
) -> Seq<char>
    decreases n,
{
    if n <= 0 {
        Seq::empty()
    } else {
        merged_upto(lines, marks, names, batch, n - 1) + line_output(lines, marks, names, batch, n - 1)
    }
}

/// The merged document for an existing one with these lines and markers.
pub open spec fn merged_text(
    lines: Seq<Seq<char>>,
    marks: Seq<Marker>,
    names: Seq<Seq<char>>,
    batch: Seq<char>,
) -> Seq<char> {
    merged_upto(lines, marks, names, batch, lines.len() as int)
}

/// The document written where none existed: the wrapper around the batch.
pub open spec fn fresh_document(batch: Seq<char>) -> Seq<char> {
    TEMPLATE_SETTINGS_START@ + batch + TEMPLATE_SETTINGS_END@
}

/// Whether `n` is one of `names`.
pub fn contains_name(names: &Vec<String>, n: &String) -> (r: bool)
    ensures
        r == views(names@).contains(n@),
{
    let mut i: usize = 0;
    while i < names.len()
        invariant
            i <= names@.len(),
            forall|j: int| 0 <= j < i ==> names@[j]@ != n@,
        decreases names@.len() - i,
    {
        if names[i] == *n {
            assert(views(names@)[i as int] == n@);
            return true;
        }
        i += 1;
    }
    proof {
        if views(names@).contains(n@) {
            let j = choose|j: int| 0 <= j < views(names@).len() && views(names@)[j] == n@;
            assert(names@[j]@ == n@);
        }
    }
    false
}

/// Merges an existing document, given as its lines and their kinds, with
/// the incoming batch, whose definitions carry `names`.
pub fn merge_lines(lines: &Vec<String>, kinds: &Vec<LineKind>, names: &Vec<String>, batch: &str) -> (r: String)
    requires
        lines@.len() == kinds@.len(),
    ensures
        r@ == merged_text(views(lines@), kinds@.map_values(|k: LineKind| k@), views(names@), batch@),
{
    let ghost ls = views(lines@);
    let ghost marks = kinds@.map_values(|k: LineKind| k@);
    let ghost ns = views(names@);
    let mut out = String::new();
    let mut inside = false;
    let mut dropping = true;
    let mut i: usize = 0;
    proof {
        reveal_strlit("\n");
    }
    while i < lines.len()
        invariant
            i <= lines@.len(),
            lines@.len() == kinds@.len(),
            ls == views(lines@),
            marks == kinds@.map_values(|k: LineKind| k@),
            ns == views(names@),
            "\n"@ == seq!['\n'],
            (ScanState { inside, dropping }) == state_at(marks, ns, i as int),
            out@ == merged_upto(ls, marks, ns, batch@, i as int),
        decreases lines@.len() - i,
    {
        let ghost s = state_at(marks, ns, i as int);
        let keep = match &kinds[i] {
            LineKind::Close => {
                inside = false;
                !dropping
            },
            LineKind::Open(n) => {
                if inside {
                    !dropping
                } else {
                    inside = true;
                    dropping = contains_name(names, n);
                    !dropping
                }
            },
            LineKind::Single(n) => {
                if inside {
                    !dropping
                } else {
                    !contains_name(names, n)
                }
            },
            LineKind::ListEnd => {
                if inside {
                    !dropping
                } else {
                    out.append(batch);
                    true
                }
            },
            LineKind::Plain => !inside || !dropping,
        };
        if keep {
            out.append(lines[i].as_str());
            out.append("\n");
        }
        proof {
            assert(marks[i as int] == kinds@[i as int]@);
            assert(keep == keeps_line(s, marks[i as int], ns));
            assert(ls[i as int] == lines@[i as int]@);
            assert(out@ =~= merged_upto(ls, marks, ns, batch@, i as int) + line_output(ls, marks, ns, batch@, i as int));
        }
        i += 1;
    }
    out
}

/// The kind of each line.
pub fn classify_lines(markers: &Markers, lines: &Vec<String>) -> (r: Vec<LineKind>)
    requires
        markers.wf(),
    ensures
        r@.len() == lines@.len(),
        r@.map_values(|k: LineKind| k@) == markers_of(views(lines@)),
{
    let mut kinds: Vec<LineKind> = Vec::new();
    let mut i: usize = 0;
    while i < lines.len()
        invariant
            markers.wf(),
            i <= lines@.len(),
            kinds@.len() == i,
            forall|j: int| 0 <= j < i ==> kinds@[j]@ == marker_of(lines@[j]@),
        decreases lines@.len() - i,
    {
        let k = markers.classify(lines[i].as_str());
        kinds.push(k);
        i += 1;
    }
    assert(kinds@.map_values(|k: LineKind| k@) =~= markers_of(views(lines@)));
    kinds
}

/// The settings document to write: the existing one, given by its lines,
/// merged with the batch, or, where there is none, the wrapper around the
/// batch.
pub fn merge_document(markers: &Markers, existing: &Option<Vec<String>>, batch: &IncomingBatch) -> (r: String)
    requires
        markers.wf(),
    ensures
        existing matches None ==> r@ == fresh_document(batch.text@),
        existing matches Some(lines) ==> r@ == merged_text(
            views(lines@),
            markers_of(views(lines@)),
            views(batch.names@),
            batch.text@,
        ),
{
    match existing {
        None => {
            let mut out = TEMPLATE_SETTINGS_START.to_owned();
            out.append(batch.text.as_str());
            out.append(TEMPLATE_SETTINGS_END);
            out
        },
        Some(lines) => {
            let kinds = classify_lines(markers, lines);
            merge_lines(lines, &kinds, &batch.names, batch.text.as_str())
        },
    }
}

} // verus!
