//! What the merge engine guarantees of every document, stated over the
//! block structure of its lines.
use vstd::prelude::*;
use crate::document::{Marker, marker_of, markers_of};
use crate::merge::{ScanState, initial_state, next_state, state_at, keeps_line, inserts_batch, line_output, merged_upto, merged_text};

verus! {

/// The name of the multi-line definition still open before line `i`, if any.
pub open spec fn open_block(marks: Seq<Marker>, i: int) -> Option<Seq<char>>
    decreases i,
{
    if i <= 0 {
        None
    } else {
        let prev = open_block(marks, i - 1);
        match marks[i - 1] {
            Marker::Close => None,
            Marker::Open(n) => if prev is Some { prev } else { Some(n) },
            _ => prev,
        }
    }
}

/// The name of the definition that line `i` belongs to, if any: the open
/// multi-line definition (its body and its closing line), or the
/// definition that the line itself opens or holds whole.
pub open spec fn owner_at(marks: Seq<Marker>, i: int) -> Option<Seq<char>> {
    match open_block(marks, i) {
        Some(n) => Some(n),
        None => match marks[i] {
            Marker::Open(n) => Some(n),
            Marker::Single(n) => Some(n),
            _ => None,
        },
    }
}

/// The scan is inside a definition exactly where one is open, and drops
/// it exactly where its name is among the incoming ones.
pub proof fn lemma_state_follows_blocks(marks: Seq<Marker>, names: Seq<Seq<char>>, i: int)
    requires
        0 <= i <= marks.len(),
    ensures
        state_at(marks, names, i).inside == open_block(marks, i) is Some,
        open_block(marks, i) matches Some(n) ==> state_at(marks, names, i).dropping == names.contains(n),
    decreases i,
{
    if i > 0 {
        lemma_state_follows_blocks(marks, names, i - 1);
    }
}

/// Every line of a definition whose name is not among the incoming ones is
/// written out unchanged, at its own place in the order of the lines.
pub proof fn lemma_unmatched_definitions_kept(
    lines: Seq<Seq<char>>,
    marks: Seq<Marker>,
    names: Seq<Seq<char>>,
    batch: Seq<char>,
    i: int,
)
    requires
        lines.len() == marks.len(),
        0 <= i < marks.len(),
        owner_at(marks, i) matches Some(n) && !names.contains(n),
    ensures
        keeps_line(state_at(marks, names, i), marks[i], names),
        line_output(lines, marks, names, batch, i) == (if inserts_batch(state_at(marks, names, i), marks[i]) {
            batch
        } else {
            Seq::empty()
        }) + lines[i].push('\n'),
{
    lemma_state_follows_blocks(marks, names, i);
}

/// No line of a definition whose name is among the incoming ones is
/// written out.
pub proof fn lemma_matched_definitions_dropped(
    lines: Seq<Seq<char>>,
    marks: Seq<Marker>,
    names: Seq<Seq<char>>,
    batch: Seq<char>,
    i: int,
)
    requires
        lines.len() == marks.len(),
        0 <= i < marks.len(),
        owner_at(marks, i) matches Some(n) && names.contains(n),
    ensures
        !keeps_line(state_at(marks, names, i), marks[i], names),
        line_output(lines, marks, names, batch, i) == Seq::<char>::empty(),
{
    lemma_state_follows_blocks(marks, names, i);
    assert(line_output(lines, marks, names, batch, i) =~= Seq::<char>::empty());
}

proof fn lemma_block_stays_open(marks: Seq<Marker>, i: int, j: int, n: Seq<char>)
    requires
        0 <= i < j <= marks.len(),
        open_block(marks, i) is None,
        marks[i] == Marker::Open(n),
        forall|l: int| i < l < j ==> !(marks[l] is Close),
    ensures
        open_block(marks, j) == Some(n),
    decreases j - i,
{
    if j > i + 1 {
        lemma_block_stays_open(marks, i, j - 1, n);
    }
}

/// A definition whose name is among the incoming ones is dropped whether
/// it is written on one line or opens a multi-line block: in the second
/// case every line up to and including its closing line goes too.
pub proof fn lemma_both_shapes_dropped(
    lines: Seq<Seq<char>>,
    marks: Seq<Marker>,
    names: Seq<Seq<char>>,
    batch: Seq<char>,
    i: int,
    n: Seq<char>,
)
    requires
        lines.len() == marks.len(),
        0 <= i < marks.len(),
        open_block(marks, i) is None,
        marks[i] == Marker::Single(n) || marks[i] == Marker::Open(n),
        names.contains(n),
    ensures
        line_output(lines, marks, names, batch, i) == Seq::<char>::empty(),
        marks[i] == Marker::Open(n) ==> forall|j: int|
            i < j < marks.len() && (forall|l: int| i < l < j ==> !(marks[l] is Close))
            ==> #[trigger] line_output(lines, marks, names, batch, j) == Seq::<char>::empty(),
{
    lemma_matched_definitions_dropped(lines, marks, names, batch, i);
    if marks[i] == Marker::Open(n) {
        assert forall|j: int|
            i < j < marks.len() && (forall|l: int| i < l < j ==> !(marks[l] is Close))
            implies #[trigger] line_output(lines, marks, names, batch, j) == Seq::<char>::empty() by {
            lemma_block_stays_open(marks, i, j, n);
            lemma_matched_definitions_dropped(lines, marks, names, batch, j);
        }
    }
}

/// Where the line that closes the template list occurs once outside every
/// definition, the batch is written exactly once, just before that line.
pub proof fn lemma_batch_written_once(
    lines: Seq<Seq<char>>,
    marks: Seq<Marker>,
    names: Seq<Seq<char>>,
    batch: Seq<char>,
    k: int,
)
    requires
        lines.len() == marks.len(),
        0 <= k < marks.len(),
        marks[k] is ListEnd,
        open_block(marks, k) is None,
        forall|j: int| 0 <= j < marks.len() && j != k ==> !(marks[j] is ListEnd && #[trigger] open_block(marks, j) is None),
    ensures
        forall|j: int| 0 <= j < marks.len() ==> (#[trigger] inserts_batch(state_at(marks, names, j), marks[j]) <==> j == k),
        line_output(lines, marks, names, batch, k) == batch + lines[k].push('\n'),
{
    assert forall|j: int| 0 <= j < marks.len() implies (#[trigger] inserts_batch(state_at(marks, names, j), marks[j]) <==> j == k) by {
        lemma_state_follows_blocks(marks, names, j);
    }
    lemma_state_follows_blocks(marks, names, k);
}

/// The lines of a document joined into its text, each with a line break.
pub open spec fn join_lines(ls: Seq<Seq<char>>) -> Seq<char>
    decreases ls.len(),
{
    if ls.len() == 0 {
        Seq::empty()
    } else {
        join_lines(ls.drop_last()) + ls.last().push('\n')
    }
}

/// Scans `ls` from state `s`, with `batch` as the lines to insert: the
/// lines written out, and the state at the end.
pub open spec fn scan_lines(
    ls: Seq<Seq<char>>,
    names: Seq<Seq<char>>,
    batch: Seq<Seq<char>>,
    s: ScanState,
) -> (Seq<Seq<char>>, ScanState)
    decreases ls.len(),
{
    if ls.len() == 0 {
        (Seq::empty(), s)
    } else {
        let (out, t) = scan_lines(ls.drop_last(), names, batch, s);
        let m = marker_of(ls.last());
        (
            out + (if inserts_batch(t, m) { batch } else { Seq::empty() }) + (if keeps_line(t, m, names) {
                seq![ls.last()]
            } else {
                Seq::empty()
            }),
            next_state(t, m, names),
        )
    }
}

/// The lines of the merged document.
pub open spec fn merged_lines(ls: Seq<Seq<char>>, names: Seq<Seq<char>>, batch: Seq<Seq<char>>) -> Seq<Seq<char>> {
    scan_lines(ls, names, batch, initial_state()).0
}

proof fn lemma_join_concat(a: Seq<Seq<char>>, b: Seq<Seq<char>>)
    ensures
        join_lines(a + b) == join_lines(a) + join_lines(b),
    decreases b.len(),
{
    if b.len() == 0 {
        assert(a + b =~= a);
        assert(join_lines(a) + join_lines(b) =~= join_lines(a));
    } else {
        assert((a + b).drop_last() =~= a + b.drop_last());
        lemma_join_concat(a, b.drop_last());
        assert(join_lines(a + b) =~= join_lines(a) + join_lines(b));
    }
}

proof fn lemma_scan_concat(x: Seq<Seq<char>>, y: Seq<Seq<char>>, names: Seq<Seq<char>>, batch: Seq<Seq<char>>, s: ScanState)
    ensures
        scan_lines(x + y, names, batch, s) == ({
            let (ox, tx) = scan_lines(x, names, batch, s);
            let (oy, ty) = scan_lines(y, names, batch, tx);
            (ox + oy, ty)
        }),
    decreases y.len(),
{
    if y.len() == 0 {
        assert(x + y =~= x);
        let ox = scan_lines(x, names, batch, s).0;
        assert(ox + Seq::<Seq<char>>::empty() =~= ox);
    } else {
        assert((x + y).drop_last() =~= x + y.drop_last());
        lemma_scan_concat(x, y.drop_last(), names, batch, s);
        let (ox, tx) = scan_lines(x, names, batch, s);
        let (o1, t1) = scan_lines(y.drop_last(), names, batch, tx);
        let m = marker_of(y.last());
        let piece = (if inserts_batch(t1, m) { batch } else { Seq::empty() }) + (if keeps_line(t1, m, names) {
            seq![y.last()]
        } else {
            Seq::empty()
        });
        assert(ox + o1 + piece =~= ox + (o1 + piece));
    }
}

proof fn lemma_scan_follows_state(ls: Seq<Seq<char>>, names: Seq<Seq<char>>, batch: Seq<Seq<char>>, k: int)
    requires
        0 <= k <= ls.len(),
    ensures
        scan_lines(ls.subrange(0, k), names, batch, initial_state()).1 == state_at(markers_of(ls), names, k),
    decreases k,
{
    if k > 0 {
        assert(ls.subrange(0, k).drop_last() =~= ls.subrange(0, k - 1));
        lemma_scan_follows_state(ls, names, batch, k - 1);
    }
}

/// The batch is made of whole definitions, each named among `names`.
pub open spec fn whole_named_definitions(batch: Seq<Seq<char>>, names: Seq<Seq<char>>) -> bool {
    &&& forall|k: int| 0 <= k < batch.len() ==> (#[trigger] owner_at(markers_of(batch), k) matches Some(n) && names.contains(n))
    &&& open_block(markers_of(batch), batch.len() as int) is None
}

proof fn lemma_batch_prefix_dropped(batch: Seq<Seq<char>>, names: Seq<Seq<char>>, b2: Seq<Seq<char>>, s: ScanState, k: int)
    requires
        whole_named_definitions(batch, names),
        !s.inside,
        0 <= k <= batch.len(),
    ensures
        scan_lines(batch.subrange(0, k), names, b2, s).0 == Seq::<Seq<char>>::empty(),
        scan_lines(batch.subrange(0, k), names, b2, s).1.inside == open_block(markers_of(batch), k) is Some,
        open_block(markers_of(batch), k) is Some ==> scan_lines(batch.subrange(0, k), names, b2, s).1.dropping,
    decreases k,
{
    if k > 0 {
        assert(batch.subrange(0, k).drop_last() =~= batch.subrange(0, k - 1));
        lemma_batch_prefix_dropped(batch, names, b2, s, k - 1);
        assert(markers_of(batch)[k - 1] == marker_of(batch[k - 1]));
        assert(owner_at(markers_of(batch), k - 1) matches Some(n) && names.contains(n));
        let t = scan_lines(batch.subrange(0, k - 1), names, b2, s).1;
        assert(!keeps_line(t, marker_of(batch[k - 1]), names));
        assert(!inserts_batch(t, marker_of(batch[k - 1])));
        assert(scan_lines(batch.subrange(0, k), names, b2, s).0 =~= Seq::<Seq<char>>::empty());
    }
}

proof fn lemma_batch_dropped(batch: Seq<Seq<char>>, names: Seq<Seq<char>>, s: ScanState)
    requires
        whole_named_definitions(batch, names),
        !s.inside,
    ensures
        scan_lines(batch, names, batch, s).0 == Seq::<Seq<char>>::empty(),
        !scan_lines(batch, names, batch, s).1.inside,
{
    lemma_batch_prefix_dropped(batch, names, batch, s, batch.len() as int);
    assert(batch.subrange(0, batch.len() as int) =~= batch);
}

/// Where the scans of the first and of the second merge stand, relative
/// to one another, after the same part of the input document.
pub open spec fn scans_agree(first: ScanState, second: ScanState) -> bool {
    &&& (first.inside && !first.dropping) ==> second == first
    &&& (!first.inside || first.dropping) ==> !second.inside
}

proof fn lemma_rescan_prefix(ls: Seq<Seq<char>>, names: Seq<Seq<char>>, batch: Seq<Seq<char>>, k: int)
    requires
        0 <= k <= ls.len(),
        forall|j: int| 0 <= j < ls.len() && (#[trigger] markers_of(ls)[j]) is Close ==> open_block(markers_of(ls), j) is Some,
        whole_named_definitions(batch, names),
    ensures
        ({
            let (o, t) = scan_lines(ls.subrange(0, k), names, batch, initial_state());
            let (o2, t2) = scan_lines(o, names, batch, initial_state());
            o2 == o && scans_agree(t, t2)
        }),
    decreases k,
{
    if k > 0 {
        let p = ls.subrange(0, k - 1);
        let x = ls[k - 1];
        assert(ls.subrange(0, k).drop_last() =~= p);
        lemma_rescan_prefix(ls, names, batch, k - 1);
        let (o, t) = scan_lines(p, names, batch, initial_state());
        let (o2, t2) = scan_lines(o, names, batch, initial_state());
        let m = marker_of(x);
        let ins = if inserts_batch(t, m) { batch } else { Seq::<Seq<char>>::empty() };
        let kept = if keeps_line(t, m, names) { seq![x] } else { Seq::<Seq<char>>::empty() };
        let piece = ins + kept;
        assert(scan_lines(ls.subrange(0, k), names, batch, initial_state()).0 == o + piece);
        lemma_scan_concat(o, piece, names, batch, initial_state());
        lemma_scan_follows_state(ls, names, batch, k - 1);
        lemma_state_follows_blocks(markers_of(ls), names, k - 1);
        assert(markers_of(ls)[k - 1] == m);
        if !t.inside {
            assert(!(m is Close));
        }
        let single = scan_lines(seq![x], names, batch, t2);
        assert(seq![x].drop_last() =~= Seq::<Seq<char>>::empty());
        assert(seq![x].last() == x);
        if inserts_batch(t, m) {
            lemma_scan_concat(batch, seq![x], names, batch, t2);
            lemma_batch_dropped(batch, names, t2);
            let tb = scan_lines(batch, names, batch, t2).1;
            assert(scan_lines(Seq::<Seq<char>>::empty(), names, batch, tb) == (Seq::<Seq<char>>::empty(), tb));
            assert(inserts_batch(tb, m) && keeps_line(tb, m, names));
            assert(scan_lines(seq![x], names, batch, tb).0 =~= batch + seq![x]);
            assert(o + piece =~= o + (batch + seq![x]));
        } else if keeps_line(t, m, names) {
            assert(piece =~= seq![x]);
            assert(scan_lines(Seq::<Seq<char>>::empty(), names, batch, t2) == (Seq::<Seq<char>>::empty(), t2));
            assert(!inserts_batch(t2, m) && keeps_line(t2, m, names));
            assert(single.0 =~= seq![x]);
        } else {
            assert(piece =~= Seq::<Seq<char>>::empty());
            assert(o + piece =~= o);
        }
    }
}

/// Merging again with the same batch changes nothing: the batch's own
/// definitions are dropped and the batch is written again at the same
/// place. This holds where every closing line of the document closes an
/// open definition, and the batch is made of whole definitions whose
/// names are all among the incoming ones. The lines are also those of
/// the text that the merge writes.
pub proof fn lemma_merge_twice(ls: Seq<Seq<char>>, names: Seq<Seq<char>>, batch: Seq<Seq<char>>)
    requires
        forall|j: int| 0 <= j < ls.len() && (#[trigger] markers_of(ls)[j]) is Close ==> open_block(markers_of(ls), j) is Some,
        whole_named_definitions(batch, names),
    ensures
        merged_lines(merged_lines(ls, names, batch), names, batch) == merged_lines(ls, names, batch),
        join_lines(merged_lines(ls, names, batch)) == merged_text(ls, markers_of(ls), names, join_lines(batch)),
{
    lemma_rescan_prefix(ls, names, batch, ls.len() as int);
    assert(ls.subrange(0, ls.len() as int) =~= ls);
    lemma_text_is_joined_lines(ls, names, batch, ls.len() as int);
}

/// Line `j` of `ls` belongs to a definition whose name is among `names`.
pub open spec fn in_matched_definition(ls: Seq<Seq<char>>, names: Seq<Seq<char>>, j: int) -> bool {
    owner_at(markers_of(ls), j) matches Some(n) && names.contains(n)
}

/// The first `k` lines of `ls`, without the lines of the definitions whose
/// names are among `names`.
pub open spec fn unmatched_prefix(ls: Seq<Seq<char>>, names: Seq<Seq<char>>, k: int) -> Seq<Seq<char>>
    decreases k,
{
    if k <= 0 {
        Seq::empty()
    } else {
        unmatched_prefix(ls, names, k - 1) + (if in_matched_definition(ls, names, k - 1) {
            Seq::empty()
        } else {
            seq![ls[k - 1]]
        })
    }
}

/// `ls` with every definition whose name is among `names` deleted, whether
/// written on one line or over several.
pub open spec fn without_matched(ls: Seq<Seq<char>>, names: Seq<Seq<char>>) -> Seq<Seq<char>> {
    unmatched_prefix(ls, names, ls.len() as int)
}

proof fn lemma_unmatched_prefix(ls: Seq<Seq<char>>, names: Seq<Seq<char>>, batch: Seq<Seq<char>>, k: int)
    requires
        0 <= k <= ls.len(),
        forall|j: int| 0 <= j < ls.len() && (#[trigger] markers_of(ls)[j]) is Close ==> open_block(markers_of(ls), j) is Some,
    ensures
        ({
            let (o, t) = scan_lines(ls.subrange(0, k), names, batch, initial_state());
            let (o2, t2) = scan_lines(unmatched_prefix(ls, names, k), names, batch, initial_state());
            o2 == o && scans_agree(t, t2)
        }),
    decreases k,
{
    if k > 0 {
        let p = ls.subrange(0, k - 1);
        let x = ls[k - 1];
        let u = unmatched_prefix(ls, names, k - 1);
        assert(ls.subrange(0, k).drop_last() =~= p);
        lemma_unmatched_prefix(ls, names, batch, k - 1);
        let (o, t) = scan_lines(p, names, batch, initial_state());
        let (o2, t2) = scan_lines(u, names, batch, initial_state());
        let m = marker_of(x);
        lemma_scan_follows_state(ls, names, batch, k - 1);
        lemma_state_follows_blocks(markers_of(ls), names, k - 1);
        assert(markers_of(ls)[k - 1] == m);
        if !t.inside {
            assert(!(m is Close));
        }
        if in_matched_definition(ls, names, k - 1) {
            assert(!keeps_line(t, m, names));
            assert(!inserts_batch(t, m));
            assert(unmatched_prefix(ls, names, k) =~= u);
            assert(scan_lines(ls.subrange(0, k), names, batch, initial_state()).0 =~= o);
        } else {
            assert(unmatched_prefix(ls, names, k) =~= u + seq![x]);
            lemma_scan_concat(u, seq![x], names, batch, initial_state());
            assert(seq![x].drop_last() =~= Seq::<Seq<char>>::empty());
            assert(seq![x].last() == x);
            assert(scan_lines(Seq::<Seq<char>>::empty(), names, batch, t2) == (Seq::<Seq<char>>::empty(), t2));
            assert(inserts_batch(t2, m) == inserts_batch(t, m));
            assert(keeps_line(t2, m, names) == keeps_line(t, m, names));
            let ins = if inserts_batch(t, m) { batch } else { Seq::<Seq<char>>::empty() };
            let kept = if keeps_line(t, m, names) { seq![x] } else { Seq::<Seq<char>>::empty() };
            assert(scan_lines(seq![x], names, batch, t2).0 =~= ins + kept);
        }
    }
}

/// Deleting the definitions whose names are among the incoming ones, of
/// either shape, before the merge changes nothing in what it writes: such
/// a definition leaves no trace of its own in the output. This holds where
/// every closing line of the document closes an open definition.
pub proof fn lemma_matched_definitions_leave_no_trace(ls: Seq<Seq<char>>, names: Seq<Seq<char>>, batch: Seq<Seq<char>>)
    requires
        forall|j: int| 0 <= j < ls.len() && (#[trigger] markers_of(ls)[j]) is Close ==> open_block(markers_of(ls), j) is Some,
    ensures
        merged_lines(without_matched(ls, names), names, batch) == merged_lines(ls, names, batch),
        ({
            let d2 = without_matched(ls, names);
            merged_text(d2, markers_of(d2), names, join_lines(batch)) == merged_text(
                ls,
                markers_of(ls),
                names,
                join_lines(batch),
            )
        }),
{
    lemma_unmatched_prefix(ls, names, batch, ls.len() as int);
    assert(ls.subrange(0, ls.len() as int) =~= ls);
    lemma_written_text_is_joined_lines(ls, names, batch);
    lemma_written_text_is_joined_lines(without_matched(ls, names), names, batch);
}

/// The first `k` lines of `ls` as the merge writes them where every
/// closing line closes a definition: each line outside the definitions
/// named in `names`, unchanged and in order, with the batch before each
/// line that closes the template list outside every definition.
pub open spec fn kept_with_batch(ls: Seq<Seq<char>>, names: Seq<Seq<char>>, batch: Seq<Seq<char>>, k: int) -> Seq<Seq<char>>
    decreases k,
{
    if k <= 0 {
        Seq::empty()
    } else {
        kept_with_batch(ls, names, batch, k - 1) + (if in_matched_definition(ls, names, k - 1) {
            Seq::empty()
        } else {
            (if markers_of(ls)[k - 1] is ListEnd && open_block(markers_of(ls), k - 1) is None {
                batch
            } else {
                Seq::empty()
            }) + seq![ls[k - 1]]
        })
    }
}

proof fn lemma_kept_with_batch_prefix(ls: Seq<Seq<char>>, names: Seq<Seq<char>>, batch: Seq<Seq<char>>, k: int)
    requires
        0 <= k <= ls.len(),
        forall|j: int| 0 <= j < ls.len() && (#[trigger] markers_of(ls)[j]) is Close ==> open_block(markers_of(ls), j) is Some,
    ensures
        scan_lines(ls.subrange(0, k), names, batch, initial_state()).0 == kept_with_batch(ls, names, batch, k),
    decreases k,
{
    if k > 0 {
        let p = ls.subrange(0, k - 1);
        assert(ls.subrange(0, k).drop_last() =~= p);
        lemma_kept_with_batch_prefix(ls, names, batch, k - 1);
        lemma_scan_follows_state(ls, names, batch, k - 1);
        lemma_state_follows_blocks(markers_of(ls), names, k - 1);
        let t = state_at(markers_of(ls), names, k - 1);
        let m = marker_of(ls[k - 1]);
        assert(markers_of(ls)[k - 1] == m);
        if !t.inside {
            assert(!(m is Close));
        }
        let o = scan_lines(p, names, batch, initial_state()).0;
        if in_matched_definition(ls, names, k - 1) {
            assert(!keeps_line(t, m, names));
            assert(!inserts_batch(t, m));
            assert(scan_lines(ls.subrange(0, k), names, batch, initial_state()).0 =~= o);
        } else {
            assert(keeps_line(t, m, names));
            let ins = if inserts_batch(t, m) { batch } else { Seq::<Seq<char>>::empty() };
            assert(scan_lines(ls.subrange(0, k), names, batch, initial_state()).0 =~= o + (ins + seq![ls[k - 1]]));
        }
    }
}

/// Where every closing line closes an open definition, the merged
/// document is exactly the lines of the definitions (and other lines) not
/// named among the incoming ones, unchanged and in their order, with the
/// batch put before the line that closes the template list; no line of a
/// definition named among the incoming ones is left.
pub proof fn lemma_merged_is_unmatched_lines(ls: Seq<Seq<char>>, names: Seq<Seq<char>>, batch: Seq<Seq<char>>)
    requires
        forall|j: int| 0 <= j < ls.len() && (#[trigger] markers_of(ls)[j]) is Close ==> open_block(markers_of(ls), j) is Some,
    ensures
        merged_lines(ls, names, batch) == kept_with_batch(ls, names, batch, ls.len() as int),
        join_lines(kept_with_batch(ls, names, batch, ls.len() as int)) == merged_text(
            ls,
            markers_of(ls),
            names,
            join_lines(batch),
        ),
{
    lemma_kept_with_batch_prefix(ls, names, batch, ls.len() as int);
    assert(ls.subrange(0, ls.len() as int) =~= ls);
    lemma_written_text_is_joined_lines(ls, names, batch);
}

/// No line holds a line break.
pub open spec fn single_lines(ls: Seq<Seq<char>>) -> bool {
    forall|i: int, j: int| 0 <= i < ls.len() && 0 <= j < ls[i].len() ==> #[trigger] ls[i][j] != '\n'
}

proof fn lemma_join_ends_with_break(ls: Seq<Seq<char>>)
    requires
        ls.len() > 0,
    ensures
        join_lines(ls).len() > 0,
        join_lines(ls).last() == '\n',
{
}

proof fn lemma_join_len(ls: Seq<Seq<char>>)
    ensures
        ls.len() > 0 ==> join_lines(ls).len() >= ls.last().len() + 1,
        ls.len() == 0 ==> join_lines(ls).len() == 0,
{
}

/// A text splits into lines without line breaks in one way only.
proof fn lemma_join_injective(a: Seq<Seq<char>>, b: Seq<Seq<char>>)
    requires
        single_lines(a),
        single_lines(b),
        join_lines(a) == join_lines(b),
    ensures
        a == b,
    decreases a.len() + b.len(),
{
    lemma_join_len(a);
    lemma_join_len(b);
    if a.len() > 0 && b.len() > 0 {
        let x = a.last();
        let y = b.last();
        let ja = join_lines(a.drop_last());
        let jb = join_lines(b.drop_last());
        let j = join_lines(a);
        assert(j == ja + x.push('\n'));
        assert(j == jb + y.push('\n'));
        if x.len() < y.len() {
            if a.drop_last().len() > 0 {
                lemma_join_ends_with_break(a.drop_last());
                let pos = ja.len() - 1;
                assert(j[pos] == '\n');
                let off = pos - jb.len();
                assert(0 <= off < y.len());
                assert(j[pos] == y[off]);
                assert(b[b.len() - 1][off] != '\n');
            } else {
                assert(ja.len() == 0);
                assert(false);
            }
        } else if y.len() < x.len() {
            if b.drop_last().len() > 0 {
                lemma_join_ends_with_break(b.drop_last());
                let pos = jb.len() - 1;
                assert(j[pos] == '\n');
                let off = pos - ja.len();
                assert(0 <= off < x.len());
                assert(j[pos] == x[off]);
                assert(a[a.len() - 1][off] != '\n');
            } else {
                assert(jb.len() == 0);
                assert(false);
            }
        }
        assert(ja.len() == jb.len());
        assert(ja =~= j.subrange(0, ja.len() as int));
        assert(jb =~= j.subrange(0, jb.len() as int));
        assert(x =~= j.subrange(ja.len() as int, j.len() - 1));
        assert(y =~= j.subrange(jb.len() as int, j.len() - 1));
        assert(single_lines(a.drop_last()));
        assert(single_lines(b.drop_last()));
        lemma_join_injective(a.drop_last(), b.drop_last());
        assert(a =~= a.drop_last().push(x));
        assert(b =~= b.drop_last().push(y));
    } else if a.len() > 0 {
        assert(false);
    } else if b.len() > 0 {
        assert(false);
    } else {
        assert(a =~= b);
    }
}

proof fn lemma_scan_single_lines(ls: Seq<Seq<char>>, names: Seq<Seq<char>>, batch: Seq<Seq<char>>, s: ScanState)
    requires
        single_lines(ls),
        single_lines(batch),
    ensures
        single_lines(scan_lines(ls, names, batch, s).0),
    decreases ls.len(),
{
    if ls.len() > 0 {
        assert(single_lines(ls.drop_last()));
        lemma_scan_single_lines(ls.drop_last(), names, batch, s);
        let (o, t) = scan_lines(ls.drop_last(), names, batch, s);
        let m = marker_of(ls.last());
        let ins = if inserts_batch(t, m) { batch } else { Seq::<Seq<char>>::empty() };
        let kept = if keeps_line(t, m, names) { seq![ls.last()] } else { Seq::<Seq<char>>::empty() };
        let out = o + ins + kept;
        assert forall|i: int, j: int| 0 <= i < out.len() && 0 <= j < out[i].len() implies #[trigger] out[i][j] != '\n' by {
            if i < o.len() {
                assert(out[i] == o[i]);
            } else if i < o.len() + ins.len() {
                assert(out[i] == ins[i - o.len()]);
            } else {
                assert(out[i] == ls[ls.len() - 1]);
            }
        }
    }
}

/// Merging the written document again, read back as its lines, with the
/// same batch writes the same text. This holds where no line holds a line
/// break, every closing line of the document closes an open definition,
/// and the batch is made of whole definitions whose names are all among
/// the incoming ones.
pub proof fn lemma_merge_twice_text(
    ls: Seq<Seq<char>>,
    names: Seq<Seq<char>>,
    batch: Seq<Seq<char>>,
    read_back: Seq<Seq<char>>,
)
    requires
        single_lines(ls),
        single_lines(batch),
        single_lines(read_back),
        forall|j: int| 0 <= j < ls.len() && (#[trigger] markers_of(ls)[j]) is Close ==> open_block(markers_of(ls), j) is Some,
        whole_named_definitions(batch, names),
        join_lines(read_back) == merged_text(ls, markers_of(ls), names, join_lines(batch)),
    ensures
        read_back == merged_lines(ls, names, batch),
        merged_text(read_back, markers_of(read_back), names, join_lines(batch)) == merged_text(
            ls,
            markers_of(ls),
            names,
            join_lines(batch),
        ),
{
    lemma_merge_twice(ls, names, batch);
    lemma_scan_single_lines(ls, names, batch, initial_state());
    lemma_join_injective(read_back, merged_lines(ls, names, batch));
    lemma_written_text_is_joined_lines(read_back, names, batch);
}

/// The text that the merge writes is its lines joined, each with a line
/// break, where the batch is itself such a text.
pub proof fn lemma_written_text_is_joined_lines(ls: Seq<Seq<char>>, names: Seq<Seq<char>>, batch: Seq<Seq<char>>)
    ensures
        join_lines(merged_lines(ls, names, batch)) == merged_text(ls, markers_of(ls), names, join_lines(batch)),
{
    lemma_text_is_joined_lines(ls, names, batch, ls.len() as int);
    assert(ls.subrange(0, ls.len() as int) =~= ls);
}

/// Where the line that closes the template list occurs once outside every
/// definition, at `k`, the merged document is: the merge of the lines
/// before it, then the whole batch, then that line, then the merge of the
/// lines after it; and the batch goes in at no other line.
pub proof fn lemma_batch_before_list_end(ls: Seq<Seq<char>>, names: Seq<Seq<char>>, batch: Seq<Seq<char>>, k: int)
    requires
        0 <= k < ls.len(),
        markers_of(ls)[k] is ListEnd,
        open_block(markers_of(ls), k) is None,
        forall|j: int|
            0 <= j < ls.len() && j != k ==> !((#[trigger] markers_of(ls)[j]) is ListEnd && open_block(markers_of(ls), j) is None),
    ensures
        merged_lines(ls, names, batch) == scan_lines(ls.subrange(0, k), names, batch, initial_state()).0 + batch
            + seq![ls[k]] + scan_lines(ls.subrange(k + 1, ls.len() as int), names, batch, state_at(markers_of(ls), names, k + 1)).0,
        forall|j: int| 0 <= j < ls.len() ==> (#[trigger] inserts_batch(state_at(markers_of(ls), names, j), markers_of(ls)[j]) <==> j == k),
{
    let a = ls.subrange(0, k);
    let c = ls.subrange(k + 1, ls.len() as int);
    let x = ls[k];
    assert(ls =~= a + seq![x] + c);
    lemma_scan_concat(a + seq![x], c, names, batch, initial_state());
    lemma_scan_concat(a, seq![x], names, batch, initial_state());
    lemma_scan_follows_state(ls, names, batch, k);
    lemma_scan_follows_state(ls, names, batch, k + 1);
    assert(ls.subrange(0, k + 1) =~= a + seq![x]);
    lemma_state_follows_blocks(markers_of(ls), names, k);
    let t = state_at(markers_of(ls), names, k);
    assert(markers_of(ls)[k] == marker_of(x));
    assert(seq![x].drop_last() =~= Seq::<Seq<char>>::empty());
    assert(seq![x].last() == x);
    assert(scan_lines(Seq::<Seq<char>>::empty(), names, batch, t) == (Seq::<Seq<char>>::empty(), t));
    assert(scan_lines(seq![x], names, batch, t).0 =~= batch + seq![x]);
    let oa = scan_lines(a, names, batch, initial_state()).0;
    let oc = scan_lines(c, names, batch, state_at(markers_of(ls), names, k + 1)).0;
    assert(oa + (batch + seq![x]) + oc =~= oa + batch + seq![x] + oc);
    lemma_batch_written_once(ls, markers_of(ls), names, join_lines(batch), k);
}

proof fn lemma_text_is_joined_lines(ls: Seq<Seq<char>>, names: Seq<Seq<char>>, batch: Seq<Seq<char>>, k: int)
    requires
        0 <= k <= ls.len(),
    ensures
        merged_upto(ls, markers_of(ls), names, join_lines(batch), k)
            == join_lines(scan_lines(ls.subrange(0, k), names, batch, initial_state()).0),
    decreases k,
{
    if k > 0 {
        let p = ls.subrange(0, k - 1);
        assert(ls.subrange(0, k).drop_last() =~= p);
        lemma_text_is_joined_lines(ls, names, batch, k - 1);
        lemma_scan_follows_state(ls, names, batch, k - 1);
        let (o, t) = scan_lines(p, names, batch, initial_state());
        let m = marker_of(ls[k - 1]);
        assert(markers_of(ls)[k - 1] == m);
        let ins = if inserts_batch(t, m) { batch } else { Seq::<Seq<char>>::empty() };
        let kept = if keeps_line(t, m, names) { seq![ls[k - 1]] } else { Seq::<Seq<char>>::empty() };
        assert(scan_lines(ls.subrange(0, k), names, batch, initial_state()).0 == o + ins + kept);
        lemma_join_concat(o + ins, kept);
        lemma_join_concat(o, ins);
        assert(join_lines(Seq::<Seq<char>>::empty()) =~= Seq::<char>::empty());
        assert(seq![ls[k - 1]].drop_last() =~= Seq::<Seq<char>>::empty());
        assert(join_lines(seq![ls[k - 1]]) =~= ls[k - 1].push('\n'));
        let lo = line_output(ls, markers_of(ls), names, join_lines(batch), k - 1);
        assert(lo =~= join_lines(ins) + join_lines(kept));
        assert(merged_upto(ls, markers_of(ls), names, join_lines(batch), k) =~= join_lines(o) + join_lines(ins) + join_lines(kept));
    }
}

} // verus!
