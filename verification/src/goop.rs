//! Goop painting: strokes, pixel-span undo records, the undo history and the
//! connected fill over a layer's depth grid.
use std::collections::BTreeMap;
use std::collections::VecDeque;
use vstd::prelude::*;
use vstd::std_specs::btree::{increasing_seq, spec_btree_map_iter};
use vstd::std_specs::iter::IteratorSpec;
use vstd::std_specs::cmp::OrdSpec;
use vstd::arithmetic::power::pow;
use vstd::arithmetic::power2::{
    is_pow2, lemma2_to64, lemma_pow2, lemma_pow2_strictly_increases, lemma_pow2_unfold, pow2,
};
use crate::text::{
    chars_of, has_prefix, lower_seq, occurs_at, replace_char, replace_char_vec, starts_with,
    string_of, sub_vec, to_ascii_lower, two_digit_string, two_digits, find_pattern,
};


verus! {

broadcast use vstd::std_specs::btree::group_btree_axioms;

/// How many goop edits the undo history keeps.
pub const GOOP_UNDO_LIMIT: usize = 80;

/// One run of consecutive mask bytes a stroke changed.
#[derive(Debug, Clone, PartialEq, Eq)]
pub struct GoopPixelSpan {
    pub start: usize,
    pub before: Vec<u8>,
    pub after: Vec<u8>,
}

/// One undoable goop edit: painted pixels of one layer, or a whole-document
/// snapshot pair (held opaquely).
#[derive(Debug, Clone, PartialEq, Eq)]
pub enum GoopUndoRecord<S> {
    Pixels { layer: usize, spans: Vec<GoopPixelSpan> },
    Snapshot(S),
}

// ---------------------------------------------------------------------------
// Change lists and spans

/// The entries `(index, before, after)` listed by strictly increasing index.
pub open spec fn strictly_increasing(v: Seq<(usize, u8, u8)>) -> bool {
    forall|i: int, j: int| 0 <= i < j < v.len() ==> v[i].0 < v[j].0
}

/// The change list that a span stands for.
pub open spec fn span_entries(s: GoopPixelSpan) -> Seq<(usize, u8, u8)> {
    Seq::new(s.before@.len(), |k: int| ((s.start + k) as usize, s.before@[k], s.after@[k]))
}

/// The change list that a sequence of spans stands for, in order.
pub open spec fn spans_entries(spans: Seq<GoopPixelSpan>) -> Seq<(usize, u8, u8)>
    decreases spans.len(),
{
    if spans.len() == 0 {
        Seq::empty()
    } else {
        spans_entries(spans.drop_last()) + span_entries(spans.last())
    }
}

/// Spans as coalescing makes them: each non-empty with matching before and
/// after lengths, and each separated from the next by at least one untouched
/// index.
pub open spec fn spans_maximal(spans: Seq<GoopPixelSpan>) -> bool {
    &&& forall|i: int|
        0 <= i < spans.len() ==> #[trigger] spans[i].before@.len() > 0
            && spans[i].before@.len() == spans[i].after@.len()
    &&& forall|i: int|
        0 <= i < spans.len() - 1 ==> #[trigger] spans[i].start + spans[i].before@.len()
            < spans[i + 1].start
}

/// `spans` is the coalescing of the change map `m`: maximal runs whose
/// entries list the map in increasing index order.
pub open spec fn coalesced_from(spans: Seq<GoopPixelSpan>, m: Map<usize, (u8, u8)>) -> bool {
    &&& spans_maximal(spans)
    &&& strictly_increasing(spans_entries(spans))
    &&& spans_entries(spans).len() == m.dom().len()
    &&& forall|k: int|
        0 <= k < spans_entries(spans).len() ==> m.contains_key(#[trigger] spans_entries(spans)[k].0)
            && m[spans_entries(spans)[k].0] == (spans_entries(spans)[k].1, spans_entries(spans)[k].2)
    &&& forall|i: usize|
        #[trigger] m.contains_key(i) ==> exists|k: int|
            0 <= k < spans_entries(spans).len() && spans_entries(spans)[k].0 == i
}

/// Lists a change map's entries in increasing index order, as the map's
/// iteration yields them.
fn sorted_changes(changes: &BTreeMap<usize, (u8, u8)>) -> (v: Vec<(usize, u8, u8)>)
    ensures
        strictly_increasing(v@),
        v@.len() == changes@.dom().len(),
        forall|k: int|
            0 <= k < v@.len() ==> changes@.contains_key(#[trigger] v@[k].0) && changes@[v@[k].0]
                == (v@[k].1, v@[k].2),
        forall|i: usize|
            #[trigger] changes@.contains_key(i) ==> exists|k: int| 0 <= k < v@.len() && v@[k].0 == i,
{
    broadcast use vstd::std_specs::btree::axiom_key_obeys_cmp_spec_meaning;
    let mut v: Vec<(usize, u8, u8)> = Vec::new();
    let ghost entries = spec_btree_map_iter(changes).remaining();
    for entry in it: changes.iter()
        invariant
            it.seq() == entries,
            v@.len() == it.index(),
            forall|k: int|
                0 <= k < it.index() ==> #[trigger] v@[k] == (*entries[k].0, entries[k].1.0, entries[k].1.1),
    {
        let (index, pair) = entry;
        v.push((*index, pair.0, pair.1));
    }
    proof {
        let keys = entries.map_values(|kv: (&usize, &(u8, u8))| *kv.0);
        assert(increasing_seq(keys));
        assert forall|i: int, j: int| 0 <= i < j < v@.len() implies v@[i].0 < v@[j].0 by {
            assert(keys[i].cmp_spec(&keys[j]) is Less);
        }
        assert forall|i: usize| #[trigger] changes@.contains_key(i) implies exists|k: int|
            0 <= k < v@.len() && v@[k].0 == i by {
            assert(entries.contains((&i, &changes@[i])));
            let k = choose|k: int| 0 <= k < entries.len() && entries[k] == (&i, &changes@[i]);
            assert(v@[k].0 == i);
        }
    }
    v
}

proof fn lemma_spans_entries_push(spans: Seq<GoopPixelSpan>, s: GoopPixelSpan)
    ensures
        spans_entries(spans.push(s)) == spans_entries(spans) + span_entries(s),
{
    assert(spans.push(s).drop_last() =~= spans);
}

proof fn lemma_spans_entries_update_last(
    spans: Seq<GoopPixelSpan>,
    s: GoopPixelSpan,
    index: usize,
    before: u8,
    after: u8,
)
    requires
        spans.len() > 0,
        s.start == spans.last().start,
        s.before@ == spans.last().before@.push(before),
        s.after@ == spans.last().after@.push(after),
        s.start + spans.last().before@.len() == index,
        spans.last().before@.len() == spans.last().after@.len(),
    ensures
        spans_entries(spans.update(spans.len() - 1, s)) == spans_entries(spans).push(
            (index, before, after),
        ),
{
    let n = spans.len() - 1;
    assert(spans.update(n, s).drop_last() =~= spans.drop_last());
    assert(span_entries(s) =~= span_entries(spans.last()).push((index, before, after)));
}

/// Groups a stroke's changed bytes into runs of consecutive indices.
pub fn coalesce_pixel_changes(changes: BTreeMap<usize, (u8, u8)>) -> (spans: Vec<GoopPixelSpan>)
    ensures
        coalesced_from(spans@, changes@),
{
    let entries = sorted_changes(&changes);
    let spans = coalesce_sorted_changes(&entries);
    spans
}

/// Groups a strictly increasing change list into runs of consecutive indices.
pub fn coalesce_sorted_changes(entries: &Vec<(usize, u8, u8)>) -> (spans: Vec<GoopPixelSpan>)
    requires
        strictly_increasing(entries@),
    ensures
        spans_maximal(spans@),
        spans_entries(spans@) == entries@,
{
    let mut spans: Vec<GoopPixelSpan> = Vec::new();
    let mut i: usize = 0;
    while i < entries.len()
        invariant
            i <= entries.len(),
            strictly_increasing(entries@),
            spans_maximal(spans@),
            spans_entries(spans@) == entries@.take(i as int),
            spans@.len() > 0 ==> spans@.last().start + spans@.last().before@.len() == entries@[i
                - 1].0 + 1,
            spans@.len() == 0 <==> i == 0,
        decreases entries.len() - i,
    {
        let (index, before, after) = entries[i];
        let n = spans.len();
        let extend = n > 0 && spans[n - 1].start + spans[n - 1].before.len() == index;
        let ghost prev = spans@;
        if extend {
            let mut last = spans.pop().unwrap();
            last.before.push(before);
            last.after.push(after);
            spans.push(last);
            proof {
                assert(spans@ =~= prev.update(prev.len() - 1, last));
                lemma_spans_entries_update_last(prev, last, index, before, after);
                assert forall|k: int| 0 <= k < spans@.len() implies #[trigger] spans@[k].before@.len()
                    > 0 && spans@[k].before@.len() == spans@[k].after@.len() by {
                    if k < spans@.len() - 1 {
                        assert(spans@[k] == prev[k]);
                    }
                }
                assert forall|k: int| 0 <= k < spans@.len() - 1 implies #[trigger] spans@[k].start
                    + spans@[k].before@.len() < spans@[k + 1].start by {
                    assert(spans@[k] == prev[k]);
                    assert(spans@[k + 1].start == prev[k + 1].start);
                }
            }
        } else {
            let span = GoopPixelSpan { start: index, before: vec![before], after: vec![after] };
            spans.push(span);
            proof {
                lemma_spans_entries_push(prev, span);
                assert(span_entries(span) =~= seq![(index, before, after)]);
                assert forall|k: int| 0 <= k < spans@.len() implies #[trigger] spans@[k].before@.len()
                    > 0 && spans@[k].before@.len() == spans@[k].after@.len() by {
                    if k < spans@.len() - 1 {
                        assert(spans@[k] == prev[k]);
                    }
                }
                if prev.len() > 0 {
                    assert(entries@[i - 1].0 < entries@[i as int].0);
                    assert(prev.last().start + prev.last().before@.len() < index);
                }
                assert forall|k: int| 0 <= k < spans@.len() - 1 implies #[trigger] spans@[k].start
                    + spans@[k].before@.len() < spans@[k + 1].start by {
                    assert(spans@[k] == prev[k]);
                    if k + 1 < prev.len() {
                        assert(spans@[k + 1] == prev[k + 1]);
                    }
                }
            }
        }
        proof {
            assert(entries@.take(i + 1) =~= entries@.take(i as int).push(entries@[i as int]));
        }
        i += 1;
    }
    proof {
        assert(entries@.take(entries.len() as int) =~= entries@);
    }
    spans
}

// ---------------------------------------------------------------------------
// Strokes

/// The bytes one brush stroke has changed so far, per mask index, as the byte
/// before the stroke and the latest byte written.
#[derive(Debug)]
pub struct GoopStroke {
    pub layer: usize,
    pub changed: BTreeMap<usize, (u8, u8)>,
}

/// Folds one sample's changes into a stroke map: a byte already touched keeps
/// its first `before` and takes the new `after`.
pub open spec fn merge_changes(m: Map<usize, (u8, u8)>, v: Seq<(usize, u8, u8)>) -> Map<
    usize,
    (u8, u8),
>
    decreases v.len(),
{
    if v.len() == 0 {
        m
    } else {
        let prev = merge_changes(m, v.drop_last());
        let e = v.last();
        if prev.contains_key(e.0) {
            prev.insert(e.0, (prev[e.0].0, e.2))
        } else {
            prev.insert(e.0, (e.1, e.2))
        }
    }
}

impl GoopStroke {
    pub fn new(layer: usize) -> (stroke: Self)
        ensures
            stroke.layer == layer,
            stroke.changed@ == Map::<usize, (u8, u8)>::empty(),
    {
        GoopStroke { layer, changed: BTreeMap::new() }
    }

    /// Records the `(index, before, after)` changes one paint sample made.
    pub fn record(&mut self, changes: &Vec<(usize, u8, u8)>)
        ensures
            final(self).layer == old(self).layer,
            final(self).changed@ == merge_changes(old(self).changed@, changes@),
    {
        let mut i: usize = 0;
        while i < changes.len()
            invariant
                i <= changes.len(),
                self.layer == old(self).layer,
                self.changed@ == merge_changes(old(self).changed@, changes@.take(i as int)),
            decreases changes.len() - i,
        {
            let (index, before, after) = changes[i];
            let first = match self.changed.get(&index) {
                Some(entry) => entry.0,
                None => before,
            };
            self.changed.insert(index, (first, after));
            proof {
                assert(changes@.take(i + 1).drop_last() =~= changes@.take(i as int));
            }
            i += 1;
        }
        proof {
            assert(changes@.take(changes.len() as int) =~= changes@);
        }
    }

    /// Ends the stroke: nothing to undo when it changed nothing, otherwise a
    /// pixel record of its coalesced spans.
    pub fn finish<S>(self) -> (record: Option<GoopUndoRecord<S>>)
        ensures
            self.changed@.dom().len() == 0 ==> record is None,
            self.changed@.dom().len() != 0 ==> (match record {
                Some(GoopUndoRecord::Pixels { layer, spans }) => layer == self.layer
                    && coalesced_from(spans@, self.changed@),
                _ => false,
            }),
    {
        if self.changed.is_empty() {
            return None;
        }
        let layer = self.layer;
        let spans = coalesce_pixel_changes(self.changed);
        Some(GoopUndoRecord::Pixels { layer, spans })
    }
}

// ---------------------------------------------------------------------------
// Applying pixel records

/// The bytes a span writes when its edit is redone (`after`) or undone
/// (`before`).
pub open spec fn span_values(s: GoopPixelSpan, forward: bool) -> Seq<u8> {
    if forward {
        s.after@
    } else {
        s.before@
    }
}

/// Writes `values` at `start` when the whole run fits, else leaves the mask.
pub open spec fn write_run(mask: Seq<u8>, start: int, values: Seq<u8>) -> Seq<u8> {
    if start + values.len() <= mask.len() {
        mask.subrange(0, start) + values + mask.subrange(start + values.len(), mask.len() as int)
    } else {
        mask
    }
}

/// The mask after writing every span in order.
pub open spec fn apply_spans(mask: Seq<u8>, spans: Seq<GoopPixelSpan>, forward: bool) -> Seq<u8>
    decreases spans.len(),
{
    if spans.len() == 0 {
        mask
    } else {
        write_run(
            apply_spans(mask, spans.drop_last(), forward),
            spans.last().start as int,
            span_values(spans.last(), forward),
        )
    }
}

/// Writes a pixel record's spans into a layer mask: the `after` bytes to
/// redo it, the `before` bytes to undo it. A span that would run past the end
/// of the mask is skipped.
pub fn apply_pixel_spans(mask: &mut Vec<u8>, spans: &Vec<GoopPixelSpan>, forward: bool)
    ensures
        final(mask)@ == apply_spans(old(mask)@, spans@, forward),
{
    let mut i: usize = 0;
    while i < spans.len()
        invariant
            i <= spans.len(),
            mask@ == apply_spans(old(mask)@, spans@.take(i as int), forward),
        decreases spans.len() - i,
    {
        let span = &spans[i];
        let values = if forward {
            &span.after
        } else {
            &span.before
        };
        assert(span_values(spans@[i as int], forward) == values@);
        let fits = values.len() <= mask.len() && span.start <= mask.len() - values.len();
        let ghost before_write = mask@;
        if fits {
            let end = span.start + values.len();
            let mut k: usize = 0;
            while k < values.len()
                invariant
                    k <= values.len(),
                    end == span.start + values.len(),
                    end <= mask.len(),
                    mask@.len() == before_write.len(),
                    forall|j: int|
                        0 <= j < mask@.len() ==> mask@[j] == if span.start <= j < span.start + k {
                            values@[j - span.start]
                        } else {
                            before_write[j]
                        },
                decreases values.len() - k,
            {
                mask.set(span.start + k, values[k]);
                k += 1;
            }
            proof {
                assert(mask@ =~= write_run(before_write, span.start as int, values@));
            }
        }
        proof {
            assert(spans@.take(i + 1).drop_last() =~= spans@.take(i as int));
        }
        i += 1;
    }
    proof {
        assert(spans@.take(spans.len() as int) =~= spans@);
    }
}

/// Every span lies within a mask of `len` bytes.
pub open spec fn spans_within(spans: Seq<GoopPixelSpan>, len: nat) -> bool {
    forall|k: int| 0 <= k < spans.len() ==> #[trigger] spans[k].start + spans[k].before@.len() <= len
}

proof fn lemma_entries_of_prefix_precede(spans: Seq<GoopPixelSpan>)
    requires
        spans.len() > 0,
        spans_maximal(spans),
        strictly_increasing(spans_entries(spans)),
    ensures
        forall|k: int|
            0 <= k < spans_entries(spans.drop_last()).len() ==> #[trigger] spans_entries(
                spans.drop_last(),
            )[k].0 < spans.last().start,
{
    let init = spans.drop_last();
    let e = spans_entries(spans);
    assert(e == spans_entries(init) + span_entries(spans.last()));
    assert forall|k: int| 0 <= k < spans_entries(init).len() implies #[trigger] spans_entries(
        init,
    )[k].0 < spans.last().start by {
        let n = spans_entries(init).len();
        assert(e[k] == spans_entries(init)[k]);
        assert(e[n as int] == span_entries(spans.last())[0]);
    }
}

proof fn lemma_apply_spans_pointwise(mask: Seq<u8>, spans: Seq<GoopPixelSpan>, forward: bool)
    requires
        mask.len() <= usize::MAX,
        spans_maximal(spans),
        strictly_increasing(spans_entries(spans)),
        spans_within(spans, mask.len()),
    ensures
        apply_spans(mask, spans, forward).len() == mask.len(),
        forall|k: int|
            0 <= k < spans_entries(spans).len() ==> apply_spans(mask, spans, forward)[#[trigger] spans_entries(spans)[k].0 as int]
                == if forward {
                spans_entries(spans)[k].2
            } else {
                spans_entries(spans)[k].1
            },
        forall|j: int|
            0 <= j < mask.len() && (forall|k: int|
                0 <= k < spans_entries(spans).len() ==> #[trigger] spans_entries(spans)[k].0 != j)
                ==> apply_spans(mask, spans, forward)[j] == mask[j],
    decreases spans.len(),
{
    if spans.len() > 0 {
        let init = spans.drop_last();
        let last = spans.last();
        assert(spans_maximal(init)) by {
            assert forall|i: int| 0 <= i < init.len() implies #[trigger] init[i].before@.len() > 0
                && init[i].before@.len() == init[i].after@.len() by {
                assert(init[i] == spans[i]);
            }
            assert forall|i: int| 0 <= i < init.len() - 1 implies #[trigger] init[i].start
                + init[i].before@.len() < init[i + 1].start by {
                assert(init[i] == spans[i]);
                assert(init[i + 1] == spans[i + 1]);
            }
        }
        let e = spans_entries(spans);
        let ei = spans_entries(init);
        let el = span_entries(last);
        assert(e == ei + el);
        assert(strictly_increasing(ei)) by {
            assert forall|i: int, j: int| 0 <= i < j < ei.len() implies ei[i].0 < ei[j].0 by {
                assert(e[i] == ei[i]);
                assert(e[j] == ei[j]);
            }
        }
        assert(spans_within(init, mask.len())) by {
            assert forall|i: int| 0 <= i < init.len() implies #[trigger] init[i].start
                + init[i].before@.len() <= mask.len() by {
                assert(init[i] == spans[i]);
            }
        }
        lemma_apply_spans_pointwise(mask, init, forward);
        lemma_entries_of_prefix_precede(spans);
        let prev = apply_spans(mask, init, forward);
        let vals = span_values(last, forward);
        assert(spans[spans.len() - 1] == last);
        assert(last.start + last.before@.len() <= mask.len());
        assert(apply_spans(mask, spans, forward) == write_run(prev, last.start as int, vals));
        let r = apply_spans(mask, spans, forward);
        assert(r =~= prev.subrange(0, last.start as int) + vals + prev.subrange(
            last.start + vals.len(),
            prev.len() as int,
        ));
        assert forall|k: int| 0 <= k < e.len() implies r[#[trigger] e[k].0 as int] == if forward {
            e[k].2
        } else {
            e[k].1
        } by {
            if k < ei.len() {
                assert(e[k] == ei[k]);
                assert(ei[k].0 < last.start);
            } else {
                let m = k - ei.len();
                assert(e[k] == el[m]);
                assert(el[m].0 as int == last.start + m);
                assert(r[last.start + m] == vals[m]);
            }
        }
        assert forall|j: int|
            0 <= j < mask.len() && (forall|k: int| 0 <= k < e.len() ==> #[trigger] e[k].0 != j)
                implies r[j] == mask[j] by {
            assert forall|k: int| 0 <= k < ei.len() implies #[trigger] ei[k].0 != j by {
                assert(e[k] == ei[k]);
            }
            if last.start <= j < last.start + vals.len() {
                let k = ei.len() + (j - last.start);
                assert(e[k] == el[j - last.start]);
                assert(e[k].0 == j);
                assert(false);
            }
        }
    }
}

/// Undoing a pixel record and then redoing it gives back the mask it was
/// recorded on: with the spans' `after` bytes in place, writing their
/// `before` bytes and then their `after` bytes restores every byte.
pub proof fn undo_then_redo_restores_pixels(mask: Seq<u8>, spans: Seq<GoopPixelSpan>)
    requires
        mask.len() <= usize::MAX,
        spans_maximal(spans),
        strictly_increasing(spans_entries(spans)),
        spans_within(spans, mask.len()),
        forall|k: int|
            0 <= k < spans_entries(spans).len() ==> mask[#[trigger] spans_entries(spans)[k].0 as int]
                == spans_entries(spans)[k].2,
    ensures
        apply_spans(apply_spans(mask, spans, false), spans, true) == mask,
{
    let undone = apply_spans(mask, spans, false);
    lemma_apply_spans_pointwise(mask, spans, false);
    lemma_apply_spans_pointwise(undone, spans, true);
    let redone = apply_spans(undone, spans, true);
    let e = spans_entries(spans);
    assert forall|j: int| 0 <= j < mask.len() implies redone[j] == mask[j] by {
        if exists|k: int| 0 <= k < e.len() && e[k].0 == j {
            let k = choose|k: int| 0 <= k < e.len() && e[k].0 == j;
            assert(redone[e[k].0 as int] == e[k].2);
        } else {
            assert forall|k: int| 0 <= k < e.len() implies #[trigger] e[k].0 != j by {}
        }
    }
    assert(redone =~= mask);
}

// ---------------------------------------------------------------------------
// Undo history

/// The goop undo and redo stacks.
pub struct GoopHistory<R> {
    undo: VecDeque<R>,
    redo: VecDeque<R>,
}

/// The stacks after recording a new edit: it goes on top of the undo stack,
/// the oldest edit drops once the stack outgrows its limit, and the redo
/// stack empties.
pub open spec fn history_push<R>(h: (Seq<R>, Seq<R>), record: R) -> (Seq<R>, Seq<R>) {
    let pushed = h.0.push(record);
    if pushed.len() > GOOP_UNDO_LIMIT {
        (pushed.drop_first(), Seq::empty())
    } else {
        (pushed, Seq::empty())
    }
}

/// The stacks after an undo: the newest edit moves to the redo stack.
pub open spec fn history_undo<R>(h: (Seq<R>, Seq<R>)) -> (Seq<R>, Seq<R>) {
    if h.0.len() == 0 {
        h
    } else {
        (h.0.drop_last(), h.1.push(h.0.last()))
    }
}

/// The stacks after a redo: the newest undone edit moves back.
pub open spec fn history_redo<R>(h: (Seq<R>, Seq<R>)) -> (Seq<R>, Seq<R>) {
    if h.1.len() == 0 {
        h
    } else {
        (h.0.push(h.1.last()), h.1.drop_last())
    }
}

impl<R> View for GoopHistory<R> {
    type V = (Seq<R>, Seq<R>);

    closed spec fn view(&self) -> (Seq<R>, Seq<R>) {
        (self.undo@, self.redo@)
    }
}

impl<R> GoopHistory<R> {
    /// Undo and redo stacks together never hold more edits than the limit:
    /// a new edit empties the redo stack, and undo and redo only move edits
    /// between the two.
    pub open spec fn wf(&self) -> bool {
        self@.0.len() + self@.1.len() <= GOOP_UNDO_LIMIT
    }

    pub fn new() -> (h: Self)
        ensures
            h.wf(),
            h@ == (Seq::<R>::empty(), Seq::<R>::empty()),
    {
        GoopHistory { undo: VecDeque::new(), redo: VecDeque::new() }
    }

    /// Records a new edit.
    pub fn push(&mut self, record: R)
        requires
            old(self).wf(),
        ensures
            final(self).wf(),
            final(self)@ == history_push(old(self)@, record),
    {
        self.undo.push_back(record);
        if self.undo.len() > GOOP_UNDO_LIMIT {
            self.undo.pop_front();
        }
        self.redo.clear();
    }

    /// Moves the newest edit to the redo stack; false when there is none.
    /// The caller reverts it with `last_redo`.
    pub fn undo(&mut self) -> (moved: bool)
        requires
            old(self).wf(),
        ensures
            final(self).wf(),
            moved == (old(self)@.0.len() > 0),
            final(self)@ == history_undo(old(self)@),
    {
        match self.undo.pop_back() {
            Some(record) => {
                self.redo.push_back(record);
                true
            },
            None => false,
        }
    }

    /// Moves the newest undone edit back; false when there is none. The
    /// caller re-applies it with `last_undo`.
    pub fn redo(&mut self) -> (moved: bool)
        requires
            old(self).wf(),
        ensures
            final(self).wf(),
            moved == (old(self)@.1.len() > 0),
            final(self)@ == history_redo(old(self)@),
            old(self)@.1.len() > 0 ==> final(self)@.0.len() == old(self)@.0.len() + 1,
    {
        match self.redo.pop_back() {
            Some(record) => {
                self.undo.push_back(record);
                true
            },
            None => false,
        }
    }

    /// Takes the newest undone edit off the redo stack, to replay it.
    pub fn take_last_redo(&mut self) -> (record: R)
        requires
            old(self)@.1.len() > 0,
        ensures
            record == old(self)@.1.last(),
            final(self)@ == (old(self)@.0, old(self)@.1.drop_last()),
    {
        self.redo.pop_back().unwrap()
    }

    /// Puts an edit back on top of the redo stack.
    pub fn restore_last_redo(&mut self, record: R)
        ensures
            final(self)@ == (old(self)@.0, old(self)@.1.push(record)),
    {
        self.redo.push_back(record);
    }

    pub fn undo_len(&self) -> (n: usize)
        ensures
            n == self@.0.len(),
    {
        self.undo.len()
    }

    pub fn redo_len(&self) -> (n: usize)
        ensures
            n == self@.1.len(),
    {
        self.redo.len()
    }

    /// The newest edit on the undo stack.
    pub fn last_undo(&self) -> (r: Option<&R>)
        ensures
            self@.0.len() == 0 ==> r is None,
            self@.0.len() > 0 ==> r == Some(&self@.0.last()),
    {
        let n = self.undo.len();
        if n == 0 {
            None
        } else {
            Some(&self.undo[n - 1])
        }
    }

    /// The newest edit on the redo stack.
    pub fn last_redo(&self) -> (r: Option<&R>)
        ensures
            self@.1.len() == 0 ==> r is None,
            self@.1.len() > 0 ==> r == Some(&self@.1.last()),
    {
        let n = self.redo.len();
        if n == 0 {
            None
        } else {
            Some(&self.redo[n - 1])
        }
    }
}

/// Undoing an edit and redoing it leaves both stacks as they were.
pub proof fn undo_then_redo_is_identity<R>(h: (Seq<R>, Seq<R>))
    requires
        h.0.len() > 0,
    ensures
        history_redo(history_undo(h)) == h,
{
    assert(h.0.drop_last().push(h.0.last()) =~= h.0);
    assert(h.1.push(h.0.last()).drop_last() =~= h.1);
}

/// Redoing an edit and undoing it again leaves both stacks as they were.
pub proof fn redo_then_undo_is_identity<R>(h: (Seq<R>, Seq<R>))
    requires
        h.1.len() > 0,
    ensures
        history_undo(history_redo(h)) == h,
{
    assert(h.0.push(h.1.last()).drop_last() =~= h.0);
    assert(h.1.drop_last().push(h.1.last()) =~= h.1);
}

/// A new edit empties the redo stack, sits on top of the undo stack, and the
/// undo stack never exceeds its limit.
pub proof fn push_records_on_top_and_clears_redo<R>(h: (Seq<R>, Seq<R>), record: R)
    requires
        h.0.len() <= GOOP_UNDO_LIMIT,
    ensures
        history_push(h, record).1.len() == 0,
        history_push(h, record).0.last() == record,
        history_push(h, record).0.len() <= GOOP_UNDO_LIMIT,
        history_push(h, record).0.len() == if h.0.len() < GOOP_UNDO_LIMIT {
            h.0.len() + 1
        } else {
            GOOP_UNDO_LIMIT as nat
        },
{
}

// ---------------------------------------------------------------------------
// Connected fill

/// The depth value that marks a cell the runtime cannot hold goop in.
pub const INVALID_GOOP_DEPTH: u8 = 0xff;

/// A goop layer's cell grid as the painting tools read it: `width * height`
/// depth bytes, row by row.
#[derive(Debug, Clone)]
pub struct GoopGrid {
    pub width: usize,
    pub height: usize,
    pub depth: Vec<u8>,
}

/// The row-major position of cell `(x, y)`.
pub open spec fn cell_index(width: int, x: int, y: int) -> int {
    y * width + x
}

pub open spec fn in_grid(g: GoopGrid, c: (int, int)) -> bool {
    0 <= c.0 < g.width && 0 <= c.1 < g.height
}

/// Whether goop can be painted in a cell: inside the grid and with a
/// recorded depth.
pub open spec fn valid_cell(g: GoopGrid, c: (int, int)) -> bool {
    in_grid(g, c) && g.depth@[cell_index(g.width as int, c.0, c.1)] != INVALID_GOOP_DEPTH
}

/// Two cells share an edge.
pub open spec fn adjacent(a: (int, int), b: (int, int)) -> bool {
    (a.0 == b.0 && (a.1 == b.1 + 1 || b.1 == a.1 + 1)) || (a.1 == b.1 && (a.0 == b.0 + 1 || b.0
        == a.0 + 1))
}

/// A walk through valid cells, each step to an edge neighbour.
pub open spec fn is_cell_path(g: GoopGrid, p: Seq<(int, int)>) -> bool {
    &&& p.len() > 0
    &&& forall|i: int| 0 <= i < p.len() ==> valid_cell(g, #[trigger] p[i])
    &&& forall|i: int| 0 <= i < p.len() - 1 ==> adjacent(#[trigger] p[i], p[i + 1])
}

/// Whether a walk through valid cells leads from `start` to `c`.
pub open spec fn connected(g: GoopGrid, start: (int, int), c: (int, int)) -> bool {
    exists|p: Seq<(int, int)>| is_cell_path(g, p) && p[0] == start && p.last() == c
}

/// The byte a connected fill writes.
pub open spec fn fill_value(erase: bool) -> u8 {
    if erase {
        0
    } else {
        255
    }
}

impl GoopGrid {
    pub open spec fn wf(&self) -> bool {
        self.depth@.len() == self.width * self.height
    }

    /// Whether goop can be painted at `(x, y)`.
    pub fn valid_cell(&self, x: usize, y: usize) -> (b: bool)
        requires
            self.wf(),
        ensures
            b == valid_cell(*self, (x as int, y as int)),
    {
        if x < self.width && y < self.height {
            let len = self.depth.len();
            proof {
                lemma_cell_index_bounds(self.width as int, self.height as int, x as int, y as int);
            }
            self.depth[y * self.width + x] != INVALID_GOOP_DEPTH
        } else {
            false
        }
    }
}

proof fn lemma_cell_index_bounds(w: int, h: int, x: int, y: int)
    requires
        0 <= x < w,
        0 <= y < h,
    ensures
        0 <= cell_index(w, x, y) < w * h,
        cell_index(w, x, y) == y * w + x,
{
    assert(0 <= y * w) by (nonlinear_arith)
        requires
            0 <= y,
            0 <= w,
    ;
    assert(y * w + x < w * h) by (nonlinear_arith)
        requires
            0 <= x < w,
            0 <= y < h,
    ;
}
proof fn lemma_connected_start(g: GoopGrid, start: (int, int))
    requires
        valid_cell(g, start),
    ensures
        connected(g, start, start),
{
    let p = seq![start];
    assert(p[0] == start);
    assert(p.last() == start);
    assert(is_cell_path(g, p));
}

proof fn lemma_connected_step(g: GoopGrid, start: (int, int), n: (int, int), c: (int, int))
    requires
        connected(g, start, n),
        adjacent(n, c),
        valid_cell(g, c),
    ensures
        connected(g, start, c),
{
    let p = choose|p: Seq<(int, int)>| is_cell_path(g, p) && p[0] == start && p.last() == n;
    let q = p.push(c);
    assert forall|i: int| 0 <= i < q.len() implies valid_cell(g, #[trigger] q[i]) by {
        if i < p.len() {
            assert(q[i] == p[i]);
        }
    }
    assert forall|i: int| 0 <= i < q.len() - 1 implies adjacent(#[trigger] q[i], q[i + 1]) by {
        if i < p.len() - 1 {
            assert(q[i] == p[i]);
            assert(q[i + 1] == p[i + 1]);
        }
    }
    assert(is_cell_path(g, q));
    assert(q[0] == start);
    assert(q.last() == c);
}

proof fn lemma_connected_for_candidate(g: GoopGrid, start: (int, int), c: (int, int))
    requires
        fill_candidate(g, start, c),
        valid_cell(g, c),
        valid_cell(g, start),
    ensures
        connected(g, start, c),
{
    if c == start {
        lemma_connected_start(g, start);
    } else {
        let n = choose|n: (int, int)| connected(g, start, n) && adjacent(n, c);
        lemma_connected_step(g, start, n, c);
    }
}

/// The cell was pushed as the start or as a neighbour of a connected cell.
pub open spec fn fill_candidate(g: GoopGrid, start: (int, int), c: (int, int)) -> bool {
    c == start || exists|n: (int, int)| connected(g, start, n) && adjacent(n, c)
}

/// A cell's valid edge neighbours are each visited or still pending.
pub open spec fn neighbours_covered(
    g: GoopGrid,
    visited: Seq<bool>,
    pending: Seq<(usize, usize)>,
    c: (int, int),
) -> bool {
    let w = g.width as int;
    &&& (c.0 > 0 && valid_cell(g, (c.0 - 1, c.1))) ==> (visited[cell_index(w, c.0 - 1, c.1)]
        || pending.contains(((c.0 - 1) as usize, c.1 as usize)))
    &&& (c.0 + 1 < w && valid_cell(g, (c.0 + 1, c.1))) ==> (visited[cell_index(w, c.0 + 1, c.1)]
        || pending.contains(((c.0 + 1) as usize, c.1 as usize)))
    &&& (c.1 > 0 && valid_cell(g, (c.0, c.1 - 1))) ==> (visited[cell_index(w, c.0, c.1 - 1)]
        || pending.contains((c.0 as usize, (c.1 - 1) as usize)))
    &&& (c.1 + 1 < g.height && valid_cell(g, (c.0, c.1 + 1))) ==> (visited[cell_index(
        w,
        c.0,
        c.1 + 1,
    )] || pending.contains((c.0 as usize, (c.1 + 1) as usize)))
}

#[verifier::spinoff_prover]
proof fn lemma_path_visited(g: GoopGrid, visited: Seq<bool>, p: Seq<(int, int)>, i: int)
    requires
        g.wf(),
        visited.len() == g.width * g.height,
        is_cell_path(g, p),
        visited[cell_index(g.width as int, p[0].0, p[0].1)],
        forall|x: int, y: int|
            0 <= x < g.width && 0 <= y < g.height && #[trigger] visited[cell_index(
                g.width as int,
                x,
                y,
            )] ==> neighbours_covered(g, visited, Seq::empty(), (x, y)),
        0 <= i < p.len(),
    ensures
        visited[cell_index(g.width as int, p[i].0, p[i].1)],
    decreases i,
{
    if i > 0 {
        lemma_path_visited(g, visited, p, i - 1);
        let a = p[i - 1];
        let b = p[i];
        assert(adjacent(p[i - 1], p[i]));
        assert(valid_cell(g, a));
        assert(valid_cell(g, b));
        assert(neighbours_covered(g, visited, Seq::empty(), a));
    }
}

/// The cells a fill pushes after visiting `(x, y)`: its in-grid edge
/// neighbours, left, right, up, down.
pub open spec fn neighbour_pushes(w: int, h: int, x: int, y: int) -> Seq<(usize, usize)> {
    let a: Seq<(usize, usize)> = if x > 0 {
        seq![((x - 1) as usize, y as usize)]
    } else {
        Seq::empty()
    };
    let b: Seq<(usize, usize)> = if x + 1 < w {
        seq![((x + 1) as usize, y as usize)]
    } else {
        Seq::empty()
    };
    let c: Seq<(usize, usize)> = if y > 0 {
        seq![(x as usize, (y - 1) as usize)]
    } else {
        Seq::empty()
    };
    let d: Seq<(usize, usize)> = if y + 1 < h {
        seq![(x as usize, (y + 1) as usize)]
    } else {
        Seq::empty()
    };
    a + b + c + d
}

/// The cell that row-major position `i` stands for.
pub open spec fn cell_at(width: int, i: int) -> (int, int) {
    (i % width, i / width)
}

proof fn lemma_cell_at(w: int, h: int, i: int)
    requires
        0 < w,
        0 <= i < w * h,
    ensures
        0 <= cell_at(w, i).0 < w,
        0 <= cell_at(w, i).1 < h,
        cell_index(w, cell_at(w, i).0, cell_at(w, i).1) == i,
{
    vstd::arithmetic::div_mod::lemma_fundamental_div_mod(i, w);
    vstd::arithmetic::div_mod::lemma_mod_pos_bound(i, w);
    vstd::arithmetic::div_mod::lemma_div_pos_is_pos(i, w);
    let q = i / w;
    let r = i % w;
    assert(q * w == w * q) by (nonlinear_arith);
    assert(q < h) by (nonlinear_arith)
        requires
            0 < w,
            i < w * h,
            i == w * q + r,
            0 <= r,
    ;
}

proof fn lemma_cell_at_index(w: int, h: int, x: int, y: int)
    requires
        0 <= x < w,
        0 <= y < h,
    ensures
        cell_at(w, cell_index(w, x, y)) == (x, y),
        0 <= cell_index(w, x, y) < w * h,
{
    lemma_cell_index_bounds(w, h, x, y);
    vstd::arithmetic::div_mod::lemma_fundamental_div_mod_converse(y * w + x, w, y, x);
}

/// Every visited position is a valid cell that a walk from the start reaches.
#[verifier::opaque]
spec fn fill_reached(g: GoopGrid, st: (int, int), visited: Seq<bool>) -> bool {
    forall|i: int|
        0 <= i < visited.len() && #[trigger] visited[i] ==> valid_cell(
            g,
            cell_at(g.width as int, i),
        ) && connected(g, st, cell_at(g.width as int, i))
}

/// The mask holds the fill value at visited positions and its old bytes
/// elsewhere.
#[verifier::opaque]
spec fn fill_written(visited: Seq<bool>, mask: Seq<u8>, old_mask: Seq<u8>, value: u8) -> bool {
    &&& mask.len() == visited.len()
    &&& old_mask.len() == visited.len()
    &&& forall|i: int|
        0 <= i < visited.len() ==> #[trigger] mask[i] == if visited[i] {
            value
        } else {
            old_mask[i]
        }
}

/// Every queued cell lies in the grid and is the start or next to a reached
/// cell.
#[verifier::opaque]
spec fn fill_queued(g: GoopGrid, st: (int, int), pending: Seq<(usize, usize)>) -> bool {
    forall|k: int|
        0 <= k < pending.len() ==> (#[trigger] pending[k]).0 < g.width && pending[k].1 < g.height
            && fill_candidate(g, st, (pending[k].0 as int, pending[k].1 as int))
}

/// No valid neighbour of a visited cell is left behind: it is visited or
/// queued.
#[verifier::opaque]
spec fn fill_closed(g: GoopGrid, visited: Seq<bool>, pending: Seq<(usize, usize)>) -> bool {
    forall|i: int|
        0 <= i < visited.len() && #[trigger] visited[i] ==> neighbours_covered(
            g,
            visited,
            pending,
            cell_at(g.width as int, i),
        )
}

/// The start is visited or queued.
spec fn fill_started(
    g: GoopGrid,
    st: (int, int),
    visited: Seq<bool>,
    pending: Seq<(usize, usize)>,
) -> bool {
    visited[cell_index(g.width as int, st.0, st.1)] || pending.contains(
        (st.0 as usize, st.1 as usize),
    )
}

/// `added` records, once each, every visited position whose byte changed,
/// with its old byte and the fill value; `idx` lists those positions.
#[verifier::opaque]
spec fn fill_recorded(
    visited: Seq<bool>,
    old_mask: Seq<u8>,
    value: u8,
    idx: Seq<usize>,
    added: Seq<(usize, u8, u8)>,
) -> bool {
    &&& added.len() == idx.len()
    &&& forall|k: int|
        0 <= k < idx.len() ==> (#[trigger] idx[k]) < visited.len() && visited[idx[k] as int]
            && old_mask[idx[k] as int] != value && added[k] == (
            idx[k],
            old_mask[idx[k] as int],
            value,
        )
    &&& forall|k1: int, k2: int|
        0 <= k1 < k2 < idx.len() ==> #[trigger] idx[k1] != #[trigger] idx[k2]
    &&& forall|i: int|
        0 <= i < visited.len() && #[trigger] visited[i] && old_mask[i] != value ==> idx.contains(
            i as usize,
        )
}

proof fn lemma_fill_init(g: GoopGrid, st: (int, int), value: u8, mask: Seq<u8>)
    requires
        g.wf(),
        valid_cell(g, st),
        mask.len() == g.width * g.height,
    ensures
        ({
            let visited = Seq::new((g.width * g.height) as nat, |i: int| false);
            let pending = seq![(st.0 as usize, st.1 as usize)];
            &&& fill_reached(g, st, visited)
            &&& fill_written(visited, mask, mask, value)
            &&& fill_queued(g, st, pending)
            &&& fill_closed(g, visited, pending)
            &&& fill_started(g, st, visited, pending)
            &&& fill_recorded(visited, mask, value, Seq::empty(), Seq::empty())
        }),
{
    reveal(fill_reached);
    reveal(fill_written);
    reveal(fill_queued);
    reveal(fill_closed);
    reveal(fill_recorded);
    let pending = seq![(st.0 as usize, st.1 as usize)];
    assert(pending[0] == (st.0 as usize, st.1 as usize));
    assert(fill_candidate(g, st, (pending[0].0 as int, pending[0].1 as int)));
}

/// Dropping the front of the queue keeps everything, when that cell is
/// already visited or not a valid one.
proof fn lemma_fill_skip(
    g: GoopGrid,
    st: (int, int),
    visited: Seq<bool>,
    pending: Seq<(usize, usize)>,
)
    requires
        g.wf(),
        valid_cell(g, st),
        visited.len() == g.width * g.height,
        pending.len() > 0,
        fill_queued(g, st, pending),
        fill_closed(g, visited, pending),
        fill_started(g, st, visited, pending),
        ({
            let c = pending[0];
            let w = g.width as int;
            (0 <= c.0 < w && 0 <= c.1 < g.height && visited[cell_index(w, c.0 as int, c.1 as int)])
                || !valid_cell(g, (c.0 as int, c.1 as int))
        }),
    ensures
        fill_queued(g, st, pending.drop_first()),
        fill_closed(g, visited, pending.drop_first()),
        fill_started(g, st, visited, pending.drop_first()),
{
    let w = g.width as int;
    let h = g.height as int;
    let p1 = pending.drop_first();
    let c = pending[0];
    assert forall|d: (usize, usize)| pending.contains(d) && d != c implies p1.contains(d) by {
        let k = choose|k: int| 0 <= k < pending.len() && pending[k] == d;
        assert(p1[k - 1] == d);
    }
    assert(fill_queued(g, st, p1)) by {
        reveal(fill_queued);
        assert forall|k: int| 0 <= k < p1.len() implies (#[trigger] p1[k]).0 < w && p1[k].1 < h
            && fill_candidate(g, st, (p1[k].0 as int, p1[k].1 as int)) by {
            assert(p1[k] == pending[k + 1]);
        }
    }
    assert(fill_closed(g, visited, p1)) by {
        reveal(fill_closed);
        assert forall|i: int| 0 <= i < visited.len() && #[trigger] visited[i] implies neighbours_covered(
            g,
            visited,
            p1,
            cell_at(w, i),
        ) by {
            assert(neighbours_covered(g, visited, pending, cell_at(w, i)));
        }
    }
    if !visited[cell_index(w, st.0, st.1)] {
        if c == (st.0 as usize, st.1 as usize) {
            assert(false);
        }
        assert(p1.contains((st.0 as usize, st.1 as usize)));
    }
}

/// Visiting a valid cell next to the reached region keeps the reached
/// positions reached.
proof fn lemma_visit_reached(
    g: GoopGrid,
    st: (int, int),
    visited: Seq<bool>,
    x: int,
    y: int,
)
    requires
        g.wf(),
        valid_cell(g, st),
        visited.len() == g.width * g.height,
        fill_reached(g, st, visited),
        valid_cell(g, (x, y)),
        fill_candidate(g, st, (x, y)),
    ensures
        fill_reached(g, st, visited.update(cell_index(g.width as int, x, y), true)),
        connected(g, st, (x, y)),
{
    reveal(fill_reached);
    let w = g.width as int;
    let i = cell_index(w, x, y);
    lemma_cell_at_index(w, g.height as int, x, y);
    lemma_connected_for_candidate(g, st, (x, y));
    let v1 = visited.update(i, true);
    assert forall|j: int| 0 <= j < v1.len() && #[trigger] v1[j] implies valid_cell(
        g,
        cell_at(w, j),
    ) && connected(g, st, cell_at(w, j)) by {
        if j != i {
            assert(visited[j]);
        }
    }
}

proof fn lemma_visit_written(
    visited: Seq<bool>,
    mask: Seq<u8>,
    old_mask: Seq<u8>,
    value: u8,
    i: int,
)
    requires
        fill_written(visited, mask, old_mask, value),
        0 <= i < visited.len(),
    ensures
        fill_written(visited.update(i, true), mask.update(i, value), old_mask, value),
        !visited[i] ==> mask[i] == old_mask[i],
{
    reveal(fill_written);
    let v1 = visited.update(i, true);
    let m1 = mask.update(i, value);
    assert forall|j: int| 0 <= j < v1.len() implies #[trigger] m1[j] == if v1[j] {
        value
    } else {
        old_mask[j]
    } by {
        if j != i {
            assert(mask[j] == if visited[j] {
                value
            } else {
                old_mask[j]
            });
        }
    }
}

/// Each cell that visiting `(x, y)` queues is an in-grid edge neighbour.
proof fn lemma_neighbour_pushes(w: int, h: int, x: int, y: int)
    requires
        0 <= x < w <= usize::MAX,
        0 <= y < h <= usize::MAX,
    ensures
        neighbour_pushes(w, h, x, y).len() <= 4,
        forall|k: int|
            0 <= k < neighbour_pushes(w, h, x, y).len() ==> {
                let d = #[trigger] neighbour_pushes(w, h, x, y)[k];
                &&& d.0 < w
                &&& d.1 < h
                &&& adjacent((x, y), (d.0 as int, d.1 as int))
            },
        x > 0 ==> neighbour_pushes(w, h, x, y).contains(((x - 1) as usize, y as usize)),
        x + 1 < w ==> neighbour_pushes(w, h, x, y).contains(((x + 1) as usize, y as usize)),
        y > 0 ==> neighbour_pushes(w, h, x, y).contains((x as usize, (y - 1) as usize)),
        y + 1 < h ==> neighbour_pushes(w, h, x, y).contains((x as usize, (y + 1) as usize)),
{
    let pushes = neighbour_pushes(w, h, x, y);
    let a: Seq<(usize, usize)> = if x > 0 {
        seq![((x - 1) as usize, y as usize)]
    } else {
        Seq::empty()
    };
    let b: Seq<(usize, usize)> = if x + 1 < w {
        seq![((x + 1) as usize, y as usize)]
    } else {
        Seq::empty()
    };
    let c: Seq<(usize, usize)> = if y > 0 {
        seq![(x as usize, (y - 1) as usize)]
    } else {
        Seq::empty()
    };
    let d: Seq<(usize, usize)> = if y + 1 < h {
        seq![(x as usize, (y + 1) as usize)]
    } else {
        Seq::empty()
    };
    assert(pushes == a + b + c + d);
    assert forall|k: int| 0 <= k < pushes.len() implies {
        let e = #[trigger] pushes[k];
        &&& e.0 < w
        &&& e.1 < h
        &&& adjacent((x, y), (e.0 as int, e.1 as int))
    } by {
        if k < a.len() {
            assert(pushes[k] == a[k]);
        } else if k < a.len() + b.len() {
            assert(pushes[k] == b[k - a.len()]);
        } else if k < a.len() + b.len() + c.len() {
            assert(pushes[k] == c[k - a.len() - b.len()]);
        } else {
            assert(pushes[k] == d[k - a.len() - b.len() - c.len()]);
        }
    }
    let na: int = if x > 0 {
        1
    } else {
        0
    };
    let nb: int = if x + 1 < w {
        1
    } else {
        0
    };
    let nc: int = if y > 0 {
        1
    } else {
        0
    };
    if x > 0 {
        assert(pushes[0] == ((x - 1) as usize, y as usize));
    }
    if x + 1 < w {
        assert(pushes[na] == ((x + 1) as usize, y as usize));
    }
    if y > 0 {
        assert(pushes[na + nb] == (x as usize, (y - 1) as usize));
    }
    if y + 1 < h {
        assert(pushes[na + nb + nc] == (x as usize, (y + 1) as usize));
    }
}

/// Queueing the neighbours of a reached cell keeps every queued cell a
/// candidate.
proof fn lemma_visit_queued(g: GoopGrid, st: (int, int), pending: Seq<(usize, usize)>, x: int, y: int)
    requires
        fill_queued(g, st, pending),
        pending.len() > 0,
        0 <= x < g.width,
        0 <= y < g.height,
        connected(g, st, (x, y)),
    ensures
        fill_queued(
            g,
            st,
            pending.drop_first() + neighbour_pushes(g.width as int, g.height as int, x, y),
        ),
{
    reveal(fill_queued);
    let w = g.width as int;
    let h = g.height as int;
    let pushes = neighbour_pushes(w, h, x, y);
    let p1 = pending.drop_first() + pushes;
    lemma_neighbour_pushes(w, h, x, y);
    assert forall|k: int| 0 <= k < p1.len() implies (#[trigger] p1[k]).0 < w && p1[k].1 < h
        && fill_candidate(g, st, (p1[k].0 as int, p1[k].1 as int)) by {
        if k < pending.len() - 1 {
            assert(p1[k] == pending[k + 1]);
        } else {
            let d = pushes[k - (pending.len() - 1)];
            assert(p1[k] == d);
            assert(adjacent((x, y), (d.0 as int, d.1 as int)));
            assert(adjacent((d.0 as int, d.1 as int), (x, y)) || adjacent((x, y), (d.0 as int, d.1 as int)));
        }
    }
}

/// After visiting the front cell and queueing its neighbours, no valid
/// neighbour of a visited cell is left behind.
proof fn lemma_visit_closed(
    g: GoopGrid,
    visited: Seq<bool>,
    pending: Seq<(usize, usize)>,
    x: int,
    y: int,
)
    requires
        g.wf(),
        visited.len() == g.width * g.height,
        fill_closed(g, visited, pending),
        pending.len() > 0,
        pending[0] == (x as usize, y as usize),
        0 <= x < g.width,
        0 <= y < g.height,
    ensures
        fill_closed(
            g,
            visited.update(cell_index(g.width as int, x, y), true),
            pending.drop_first() + neighbour_pushes(g.width as int, g.height as int, x, y),
        ),
{
    reveal(fill_closed);
    let w = g.width as int;
    let h = g.height as int;
    let i = cell_index(w, x, y);
    lemma_cell_at_index(w, h, x, y);
    let v1 = visited.update(i, true);
    let pushes = neighbour_pushes(w, h, x, y);
    let p1 = pending.drop_first() + pushes;
    lemma_neighbour_pushes(w, h, x, y);
    assert forall|d: (usize, usize)| pending.contains(d) && d != pending[0] implies p1.contains(d) by {
        let k = choose|k: int| 0 <= k < pending.len() && pending[k] == d;
        assert(p1[k - 1] == d);
    }
    assert forall|d: (usize, usize)| pushes.contains(d) implies p1.contains(d) by {
        let k = choose|k: int| 0 <= k < pushes.len() && pushes[k] == d;
        assert(p1[pending.len() - 1 + k] == d);
    }
    assert forall|j: int| 0 <= j < v1.len() && #[trigger] v1[j] implies neighbours_covered(
        g,
        v1,
        p1,
        cell_at(w, j),
    ) by {
        lemma_cell_at(w, h, j);
        let c = cell_at(w, j);
        if j != i {
            assert(visited[j]);
            assert(neighbours_covered(g, visited, pending, c));
            if c.0 > 0 {
                lemma_cell_at_index(w, h, c.0 - 1, c.1);
            }
            if c.0 + 1 < w {
                lemma_cell_at_index(w, h, c.0 + 1, c.1);
            }
            if c.1 > 0 {
                lemma_cell_at_index(w, h, c.0, c.1 - 1);
            }
            if c.1 + 1 < h {
                lemma_cell_at_index(w, h, c.0, c.1 + 1);
            }
        }
    }
}

proof fn lemma_visit_started(
    g: GoopGrid,
    st: (int, int),
    visited: Seq<bool>,
    pending: Seq<(usize, usize)>,
    x: int,
    y: int,
)
    requires
        g.wf(),
        valid_cell(g, st),
        visited.len() == g.width * g.height,
        fill_started(g, st, visited, pending),
        pending.len() > 0,
        pending[0] == (x as usize, y as usize),
        0 <= x < g.width,
        0 <= y < g.height,
    ensures
        fill_started(
            g,
            st,
            visited.update(cell_index(g.width as int, x, y), true),
            pending.drop_first() + neighbour_pushes(g.width as int, g.height as int, x, y),
        ),
{
    let w = g.width as int;
    let h = g.height as int;
    let i = cell_index(w, x, y);
    let v1 = visited.update(i, true);
    let p1 = pending.drop_first() + neighbour_pushes(w, h, x, y);
    let s = cell_index(w, st.0, st.1);
    lemma_cell_index_bounds(w, h, x, y);
    lemma_cell_index_bounds(w, h, st.0, st.1);
    if !v1[s] {
        assert(s != i);
        assert(!visited[s]);
        let k = choose|k: int| 0 <= k < pending.len() && pending[k] == (st.0 as usize, st.1 as usize);
        if k == 0 {
            assert(x == st.0 && y == st.1);
            assert(false);
        }
        assert(p1[k - 1] == (st.0 as usize, st.1 as usize));
    }
}

proof fn lemma_visit_recorded(
    visited: Seq<bool>,
    old_mask: Seq<u8>,
    value: u8,
    idx: Seq<usize>,
    added: Seq<(usize, u8, u8)>,
    i: usize,
)
    requires
        fill_recorded(visited, old_mask, value, idx, added),
        old_mask.len() == visited.len(),
        i < visited.len(),
        !visited[i as int],
    ensures
        old_mask[i as int] != value ==> fill_recorded(
            visited.update(i as int, true),
            old_mask,
            value,
            idx.push(i),
            added.push((i, old_mask[i as int], value)),
        ),
        old_mask[i as int] == value ==> fill_recorded(
            visited.update(i as int, true),
            old_mask,
            value,
            idx,
            added,
        ),
{
    reveal(fill_recorded);
    let v1 = visited.update(i as int, true);
    if old_mask[i as int] != value {
        let idx1 = idx.push(i);
        let a1 = added.push((i, old_mask[i as int], value));
        assert forall|k: int| 0 <= k < idx1.len() implies (#[trigger] idx1[k]) < v1.len()
            && v1[idx1[k] as int] && old_mask[idx1[k] as int] != value && a1[k] == (
            idx1[k],
            old_mask[idx1[k] as int],
            value,
        ) by {
            if k < idx.len() {
                assert(idx1[k] == idx[k]);
                assert(a1[k] == added[k]);
            }
        }
        assert forall|k1: int, k2: int| 0 <= k1 < k2 < idx1.len() implies #[trigger] idx1[k1]
            != #[trigger] idx1[k2] by {
            if k2 == idx.len() {
                assert(idx1[k1] == idx[k1]);
                assert(visited[idx[k1] as int]);
            } else {
                assert(idx1[k1] == idx[k1]);
                assert(idx1[k2] == idx[k2]);
            }
        }
        assert forall|j: int| 0 <= j < v1.len() && #[trigger] v1[j] && old_mask[j] != value implies idx1.contains(
            j as usize,
        ) by {
            if j == i as int {
                assert(idx1[idx.len() as int] == i);
            } else {
                assert(visited[j]);
                let k = choose|k: int| 0 <= k < idx.len() && idx[k] == j as usize;
                assert(idx1[k] == j as usize);
            }
        }
    } else {
        assert forall|k: int| 0 <= k < idx.len() implies (#[trigger] idx[k]) < v1.len()
            && v1[idx[k] as int] && old_mask[idx[k] as int] != value && added[k] == (
            idx[k],
            old_mask[idx[k] as int],
            value,
        ) by {}
        assert forall|j: int| 0 <= j < v1.len() && #[trigger] v1[j] && old_mask[j] != value implies idx.contains(
            j as usize,
        ) by {
            assert(visited[j]);
        }
    }
}

/// Once the queue is empty, the visited positions are exactly the cells a
/// walk from the start reaches.
proof fn lemma_fill_region(g: GoopGrid, st: (int, int), visited: Seq<bool>)
    requires
        g.wf(),
        valid_cell(g, st),
        visited.len() == g.width * g.height,
        fill_reached(g, st, visited),
        fill_closed(g, visited, Seq::empty()),
        fill_started(g, st, visited, Seq::empty()),
    ensures
        forall|x: int, y: int|
            0 <= x < g.width && 0 <= y < g.height ==> (#[trigger] visited[cell_index(
                g.width as int,
                x,
                y,
            )] <==> connected(g, st, (x, y))),
{
    let w = g.width as int;
    let h = g.height as int;
    assert(visited[cell_index(w, st.0, st.1)]);
    assert forall|x: int, y: int|
        0 <= x < w && 0 <= y < h && #[trigger] visited[cell_index(w, x, y)] implies neighbours_covered(
        g,
        visited,
        Seq::empty(),
        (x, y),
    ) by {
        reveal(fill_closed);
        lemma_cell_at_index(w, h, x, y);
    }
    assert forall|x: int, y: int| 0 <= x < w && 0 <= y < h implies (#[trigger] visited[cell_index(
        w,
        x,
        y,
    )] <==> connected(g, st, (x, y))) by {
        lemma_cell_at_index(w, h, x, y);
        if connected(g, st, (x, y)) {
            let p = choose|p: Seq<(int, int)>|
                is_cell_path(g, p) && p[0] == st && p.last() == (x, y);
            lemma_path_visited(g, visited, p, p.len() - 1);
        }
        if visited[cell_index(w, x, y)] {
            reveal(fill_reached);
            assert(connected(g, st, cell_at(w, cell_index(w, x, y))));
        }
    }
}

/// A change a connected fill records: a connected cell's position, its old
/// byte and the fill byte, which differ.
pub open spec fn fill_change(
    g: GoopGrid,
    st: (int, int),
    old_mask: Seq<u8>,
    value: u8,
    e: (usize, u8, u8),
) -> bool {
    exists|x: int, y: int|
        0 <= x < g.width && 0 <= y < g.height && e.0 == cell_index(g.width as int, x, y)
            && connected(g, st, (x, y)) && e.1 == old_mask[e.0 as int] && e.2 == value && e.1
            != e.2
}

/// Some change from position `from` on is recorded for mask position `i`.
pub open spec fn records_position(changes: Seq<(usize, u8, u8)>, from: int, i: int) -> bool {
    exists|k: int| from <= k < changes.len() && changes[k].0 == i
}

/// What the fill has done once its queue is empty, stated over cells.
proof fn lemma_fill_final(
    g: GoopGrid,
    st: (int, int),
    value: u8,
    visited: Seq<bool>,
    mask: Seq<u8>,
    old_mask: Seq<u8>,
    idx: Seq<usize>,
    added: Seq<(usize, u8, u8)>,
)
    requires
        g.wf(),
        valid_cell(g, st),
        visited.len() == g.width * g.height,
        visited.len() <= usize::MAX,
        fill_reached(g, st, visited),
        fill_closed(g, visited, Seq::empty()),
        fill_started(g, st, visited, Seq::empty()),
        fill_written(visited, mask, old_mask, value),
        fill_recorded(visited, old_mask, value, idx, added),
    ensures
        mask.len() == old_mask.len(),
        forall|x: int, y: int|
            0 <= x < g.width && 0 <= y < g.height ==> mask[#[trigger] cell_index(
                g.width as int,
                x,
                y,
            )] == if connected(g, st, (x, y)) {
                value
            } else {
                old_mask[cell_index(g.width as int, x, y)]
            },
        forall|k: int| 0 <= k < added.len() ==> fill_change(g, st, old_mask, value, #[trigger] added[k]),
        forall|k1: int, k2: int|
            0 <= k1 < k2 < added.len() ==> #[trigger] added[k1].0 != #[trigger] added[k2].0,
        forall|x: int, y: int|
            0 <= x < g.width && 0 <= y < g.height && connected(g, st, (x, y)) && old_mask[#[trigger] cell_index(
                g.width as int,
                x,
                y,
            )] != value ==> records_position(added, 0, cell_index(g.width as int, x, y)),
{
    let w = g.width as int;
    let h = g.height as int;
    lemma_fill_region(g, st, visited);
    reveal(fill_written);
    reveal(fill_recorded);
    assert forall|x: int, y: int| 0 <= x < w && 0 <= y < h implies mask[#[trigger] cell_index(
        w,
        x,
        y,
    )] == if connected(g, st, (x, y)) {
        value
    } else {
        old_mask[cell_index(w, x, y)]
    } by {
        lemma_cell_at_index(w, h, x, y);
        assert(visited[cell_index(w, x, y)] <==> connected(g, st, (x, y)));
    }
    assert forall|k: int| 0 <= k < added.len() implies fill_change(
        g,
        st,
        old_mask,
        value,
        #[trigger] added[k],
    ) by {
        let i = idx[k] as int;
        assert(i < visited.len());
        assert(w > 0);
        lemma_cell_at(w, h, i);
        let c = cell_at(w, i);
        assert(visited[cell_index(w, c.0, c.1)]);
        assert(connected(g, st, (c.0, c.1)));
        assert(added[k].0 == cell_index(w, c.0, c.1));
    }
    assert forall|k1: int, k2: int| 0 <= k1 < k2 < added.len() implies #[trigger] added[k1].0
        != #[trigger] added[k2].0 by {
        assert(idx[k1] != idx[k2]);
    }
    assert forall|x: int, y: int|
        0 <= x < w && 0 <= y < h && connected(g, st, (x, y)) && old_mask[#[trigger] cell_index(
            w,
            x,
            y,
        )] != value implies records_position(added, 0, cell_index(w, x, y)) by {
        lemma_cell_at_index(w, h, x, y);
        let i = cell_index(w, x, y);
        assert(visited[i]);
        assert(idx.contains(i as usize));
        let k = choose|k: int| 0 <= k < idx.len() && idx[k] == i as usize;
        assert(added[k].0 == idx[k]);
    }
}

/// Lifts what the fill recorded, stated of the appended part, to the whole
/// change list.
#[verifier::spinoff_prover]
#[verifier::rlimit(40)]
proof fn lemma_fill_changes(
    g: GoopGrid,
    st: (int, int),
    value: u8,
    old_mask: Seq<u8>,
    o: int,
    changes: Seq<(usize, u8, u8)>,
)
    requires
        0 <= o <= changes.len(),
        forall|k: int|
            0 <= k < changes.len() - o ==> fill_change(
                g,
                st,
                old_mask,
                value,
                #[trigger] changes.subrange(o, changes.len() as int)[k],
            ),
        forall|k1: int, k2: int|
            0 <= k1 < k2 < changes.len() - o ==> #[trigger] changes.subrange(
                o,
                changes.len() as int,
            )[k1].0 != #[trigger] changes.subrange(o, changes.len() as int)[k2].0,
        forall|x: int, y: int|
            0 <= x < g.width && 0 <= y < g.height && connected(g, st, (x, y)) && old_mask[#[trigger] cell_index(
                g.width as int,
                x,
                y,
            )] != value ==> records_position(
                changes.subrange(o, changes.len() as int),
                0,
                cell_index(g.width as int, x, y),
            ),
    ensures
        forall|k: int| o <= k < changes.len() ==> fill_change(g, st, old_mask, value, #[trigger] changes[k]),
        forall|k1: int, k2: int|
            o <= k1 < k2 < changes.len() ==> #[trigger] changes[k1].0 != #[trigger] changes[k2].0,
        forall|x: int, y: int|
            0 <= x < g.width && 0 <= y < g.height && connected(g, st, (x, y)) && old_mask[#[trigger] cell_index(
                g.width as int,
                x,
                y,
            )] != value ==> records_position(changes, o, cell_index(g.width as int, x, y)),
{
    let added = changes.subrange(o, changes.len() as int);
    assert forall|k: int| o <= k < changes.len() implies fill_change(
        g,
        st,
        old_mask,
        value,
        #[trigger] changes[k],
    ) by {
        assert(changes[k] == added[k - o]);
    }
    assert forall|k1: int, k2: int| o <= k1 < k2 < changes.len() implies #[trigger] changes[k1].0
        != #[trigger] changes[k2].0 by {
        assert(changes[k1] == added[k1 - o]);
        assert(changes[k2] == added[k2 - o]);
    }
    assert forall|x: int, y: int|
        0 <= x < g.width && 0 <= y < g.height && connected(g, st, (x, y)) && old_mask[#[trigger] cell_index(
            g.width as int,
            x,
            y,
        )] != value implies records_position(changes, o, cell_index(g.width as int, x, y)) by {
        let i = cell_index(g.width as int, x, y);
        assert(records_position(added, 0, i));
        let k = choose|k: int| 0 <= k < added.len() && added[k].0 == i;
        assert(changes[k + o] == added[k]);
    }
}

/// Fills the connected region of valid cells around `start` with full goop,
/// or clears it when erasing, recording each byte it changes. Nothing happens
/// when the start cell is not a valid one.
pub fn flood_fill(
    grid: &GoopGrid,
    mask: &mut Vec<u8>,
    start: [usize; 2],
    erase: bool,
    changes: &mut Vec<(usize, u8, u8)>,
)
    requires
        grid.wf(),
        old(mask)@.len() == grid.width * grid.height,
    ensures
        final(mask)@.len() == old(mask)@.len(),
        forall|x: int, y: int|
            0 <= x < grid.width && 0 <= y < grid.height ==> final(mask)@[#[trigger] cell_index(
                grid.width as int,
                x,
                y,
            )] == if connected(*grid, (start[0] as int, start[1] as int), (x, y)) {
                fill_value(erase)
            } else {
                old(mask)@[cell_index(grid.width as int, x, y)]
            },
        final(changes)@.len() >= old(changes)@.len(),
        final(changes)@.subrange(0, old(changes)@.len() as int) == old(changes)@,
        forall|k: int|
            old(changes)@.len() <= k < final(changes)@.len() ==> fill_change(
                *grid,
                (start[0] as int, start[1] as int),
                old(mask)@,
                fill_value(erase),
                #[trigger] final(changes)@[k],
            ),
        forall|k1: int, k2: int|
            old(changes)@.len() <= k1 < k2 < final(changes)@.len()
                ==> #[trigger] final(changes)@[k1].0 != #[trigger] final(changes)@[k2].0,
        forall|x: int, y: int|
            0 <= x < grid.width && 0 <= y < grid.height && connected(
                *grid,
                (start[0] as int, start[1] as int),
                (x, y),
            ) && old(mask)@[#[trigger] cell_index(grid.width as int, x, y)] != fill_value(erase)
                ==> records_position(
                final(changes)@,
                old(changes)@.len() as int,
                cell_index(grid.width as int, x, y),
            ),
{
    let w = grid.width;
    let h = grid.height;
    let ghost g = *grid;
    let ghost st: (int, int) = (start[0] as int, start[1] as int);
    let ghost old_mask = mask@;
    let ghost old_changes = changes@;
    let start_x = start[0];
    let start_y = start[1];
    if !grid.valid_cell(start_x, start_y) {
        proof {
            assert forall|x: int, y: int| 0 <= x < w && 0 <= y < h implies !connected(
                g,
                st,
                (x, y),
            ) by {
                if connected(g, st, (x, y)) {
                    let p = choose|p: Seq<(int, int)>|
                        is_cell_path(g, p) && p[0] == st && p.last() == (x, y);
                    assert(valid_cell(g, p[0]));
                }
            }
            assert(changes@.subrange(0, old_changes.len() as int) =~= old_changes);
        }
        return;
    }
    let n = grid.depth.len();
    let value: u8 = if erase {
        0
    } else {
        255
    };
    let mut visited: Vec<bool> = vec![false; n];
    let mut pending: VecDeque<(usize, usize)> = VecDeque::new();
    pending.push_back((start_x, start_y));
    let ghost mut vs: Set<int> = Set::empty();
    let ghost mut idx: Seq<usize> = Seq::empty();
    proof {
        lemma_fill_init(g, st, value, old_mask);
        assert(visited@ =~= Seq::new((g.width * g.height) as nat, |i: int| false));
        assert(pending@ =~= seq![(st.0 as usize, st.1 as usize)]);
        assert(changes@.subrange(old_changes.len() as int, changes@.len() as int) =~= Seq::<
            (usize, u8, u8),
        >::empty());
    }
    while pending.len() > 0
        invariant
            g == *grid,
            g.wf(),
            w == g.width,
            h == g.height,
            n == w * h,
            st == (start_x as int, start_y as int),
            valid_cell(g, st),
            value == fill_value(erase),
            visited@.len() == n,
            mask@.len() == n,
            old_mask.len() == n,
            vs.finite(),
            vs.subset_of(vstd::set_lib::set_int_range(0, n as int)),
            forall|i: int| 0 <= i < n ==> (visited@[i] <==> vs.contains(i)),
            changes@.len() >= old_changes.len(),
            changes@.subrange(0, old_changes.len() as int) == old_changes,
            fill_reached(g, st, visited@),
            fill_written(visited@, mask@, old_mask, value),
            fill_queued(g, st, pending@),
            fill_closed(g, visited@, pending@),
            fill_started(g, st, visited@, pending@),
            fill_recorded(
                visited@,
                old_mask,
                value,
                idx,
                changes@.subrange(old_changes.len() as int, changes@.len() as int),
            ),
        decreases (n - vs.len()) * 5 + pending@.len(),
    {
        let ghost pend0 = pending@;
        let ghost vis0 = visited@;
        let ghost mask0 = mask@;
        let ghost added0 = changes@.subrange(old_changes.len() as int, changes@.len() as int);
        let ghost changes0 = changes@;
        proof {
            vstd::set_lib::lemma_int_range(0, n as int);
            vstd::set_lib::lemma_len_subset(vs, vstd::set_lib::set_int_range(0, n as int));
        }
        let (x, y) = pending.pop_front().unwrap();
        proof {
            assert(pend0[0] == (x, y));
            assert(pending@ == pend0.drop_first());
            assert(x < w && y < h) by {
                reveal(fill_queued);
            }
            lemma_cell_index_bounds(w as int, h as int, x as int, y as int);
        }
        let index = y * w + x;
        if visited[index] || !grid.valid_cell(x, y) {
            proof {
                lemma_fill_skip(g, st, vis0, pend0);
            }
            continue;
        }
        proof {
            assert(fill_candidate(g, st, (x as int, y as int))) by {
                reveal(fill_queued);
            }
            lemma_visit_reached(g, st, vis0, x as int, y as int);
            lemma_visit_written(vis0, mask0, old_mask, value, index as int);
            lemma_visit_queued(g, st, pend0, x as int, y as int);
            lemma_visit_closed(g, vis0, pend0, x as int, y as int);
            lemma_visit_started(g, st, vis0, pend0, x as int, y as int);
            assert(old_mask.len() == vis0.len()) by {
                reveal(fill_written);
            }
            lemma_visit_recorded(vis0, old_mask, value, idx, added0, index);
        }
        visited.set(index, true);
        let before = mask[index];
        proof {
            assert(!vs.contains(index as int));
            vs = vs.insert(index as int);
        }
        if before != value {
            mask.set(index, value);
            changes.push((index, before, value));
            proof {
                idx = idx.push(index);
                assert(changes@.subrange(old_changes.len() as int, changes@.len() as int)
                    =~= added0.push((index, before, value)));
                assert(changes@.subrange(0, old_changes.len() as int) =~= changes0.subrange(
                    0,
                    old_changes.len() as int,
                ));
            }
        } else {
            proof {
                assert(mask@ =~= mask0.update(index as int, value));
            }
        }
        if x > 0 {
            pending.push_back((x - 1, y));
        }
        if x + 1 < w {
            pending.push_back((x + 1, y));
        }
        if y > 0 {
            pending.push_back((x, y - 1));
        }
        if y + 1 < h {
            pending.push_back((x, y + 1));
        }
        proof {
            assert(pending@ =~= pend0.drop_first() + neighbour_pushes(
                w as int,
                h as int,
                x as int,
                y as int,
            ));
            assert(visited@ =~= vis0.update(index as int, true));
            assert(mask@ =~= mask0.update(index as int, value));
            assert forall|i: int| 0 <= i < n implies (visited@[i] <==> vs.contains(i)) by {}
            assert(vs.subset_of(vstd::set_lib::set_int_range(0, n as int)));
            vstd::set_lib::lemma_len_subset(vs, vstd::set_lib::set_int_range(0, n as int));
            lemma_neighbour_pushes(w as int, h as int, x as int, y as int);
        }
    }
    proof {
        assert(pending@ =~= Seq::<(usize, usize)>::empty());
        lemma_fill_final(
            g,
            st,
            value,
            visited@,
            mask@,
            old_mask,
            idx,
            changes@.subrange(old_changes.len() as int, changes@.len() as int),
        );
        lemma_fill_changes(g, st, value, old_mask, old_changes.len() as int, changes@);
    }
}


/// The separator between an archive's path and a resource inside it.
pub open spec fn archive_separator() -> Seq<char> {
    seq!['!', '/']
}

/// The resource part of a mounted archive path: what follows the first
/// `!/`, with backslashes turned into slashes; nothing without a `!/`.
pub fn archive_resource_path(path: &str) -> (r: Option<String>)
    ensures
        r.is_none() <==> forall|j: int| !occurs_at(path@, archive_separator(), j),
        r.is_some() ==> exists|i: int|
            occurs_at(path@, archive_separator(), i) && (forall|j: int|
                0 <= j < i ==> !occurs_at(path@, archive_separator(), j)) && r.unwrap()@
                == replace_char(path@.subrange(i + 2, path@.len() as int), '\\', '/'),
{
    let chars = chars_of(path);
    let separator = vec!['!', '/'];
    proof {
        assert(separator@ =~= archive_separator());
    }
    match find_pattern(&chars, &separator) {
        Some(i) => {
            assert(i + 2 <= chars.len());
            let rest = sub_vec(&chars, i + 2, chars.len());
            let replaced = replace_char_vec(&rest, '\\', '/');
            Some(string_of(&replaced))
        },
        None => None,
    }
}

/// The model stem of a stage's retail pollution layer `index`: `pollutionNN`,
/// except layers 7 and 8 of the `mare` stages, `pollutionA` and `pollutionB`.
pub open spec fn pollution_stem(index: nat, stage_id: Seq<char>) -> Seq<char> {
    let mare = starts_with(lower_seq(stage_id), seq!['m', 'a', 'r', 'e']);
    if mare && index == 7 {
        seq!['p', 'o', 'l', 'l', 'u', 't', 'i', 'o', 'n', 'A']
    } else if mare && index == 8 {
        seq!['p', 'o', 'l', 'l', 'u', 't', 'i', 'o', 'n', 'B']
    } else {
        seq!['p', 'o', 'l', 'l', 'u', 't', 'i', 'o', 'n'] + two_digits(index)
    }
}

/// The model stem of a stage's retail pollution layer.
pub fn source_pollution_stem(index: usize, stage_id: &str) -> (stem: String)
    ensures
        stem@ == pollution_stem(index as nat, stage_id@),
{
    let lowered = to_ascii_lower(&chars_of(stage_id));
    let mare_prefix = vec!['m', 'a', 'r', 'e'];
    let mare = has_prefix(&lowered, &mare_prefix);
    proof {
        assert(mare_prefix@ =~= seq!['m', 'a', 'r', 'e']);
    }
    let mut v = vec!['p', 'o', 'l', 'l', 'u', 't', 'i', 'o', 'n'];
    if mare && index == 7 {
        v.push('A');
    } else if mare && index == 8 {
        v.push('B');
    } else {
        let digits = two_digit_string(index as u64);
        v.append(&mut digits.clone());
    }
    let stem = string_of(&v);
    proof {
        if mare && index == 7 {
            assert(v@ =~= seq!['p', 'o', 'l', 'l', 'u', 't', 'i', 'o', 'n', 'A']);
        } else if mare && index == 8 {
            assert(v@ =~= seq!['p', 'o', 'l', 'l', 'u', 't', 'i', 'o', 'n', 'B']);
        }
    }
    stem
}

fn power_of_two_log(n: u16) -> (r: Option<u16>)
    ensures
        match r {
            Some(k) => is_pow2(n as int) && pow2(k as nat) == n,
            None => !is_pow2(n as int),
        },
{
    if n == 0 {
        proof {
            reveal(is_pow2);
        }
        return None;
    }
    let mut m: u16 = n;
    let mut k: u16 = 0;
    proof {
        reveal(pow);
        assert(pow2(0) == 1) by {
            lemma_pow2(0);
        }
    }
    while m > 1 && m % 2 == 0
        invariant
            0 < m <= n,
            k <= 16,
            n as int == m as int * pow2(k as nat),
            is_pow2(n as int) == is_pow2(m as int),
        decreases m,
    {
        proof {
            reveal(is_pow2);
            lemma_pow2_unfold((k + 1) as nat);
            let p = pow2(k as nat);
            assert(m as int * p == (m / 2) as int * (2 * p)) by (nonlinear_arith)
                requires
                    m % 2 == 0,
            ;
            if k >= 16 {
                lemma_pow2_strictly_increases(15, k as nat);
                lemma2_to64();
                assert(m as int * p >= 2 * p) by (nonlinear_arith)
                    requires
                        m >= 2,
                        p >= 0,
                ;
            }
        }
        m = m / 2;
        k = k + 1;
    }
    proof {
        reveal(is_pow2);
    }
    if m == 1 {
        Some(k)
    } else {
        None
    }
}

/// The error for a manual goop region whose size is not allowed.
pub open spec fn region_size_error() -> Seq<char> {
    "Manual goop region dimensions must be power-of-two cells (minimum 8x4)"@
}

/// Checks a manual goop region's size in 40-unit cells: both sides a power
/// of two, at least 8 cells wide and 4 deep. Gives each side's base-two
/// logarithm, which the runtime layer stores.
pub fn manual_region_cells(width_cells: u16, height_cells: u16) -> (r: Result<(u16, u16), String>)
    ensures
        match r {
            Ok((w, h)) => pow2(w as nat) == width_cells && pow2(h as nat) == height_cells
                && width_cells >= 8 && height_cells >= 4,
            Err(e) => e@ == region_size_error() && !(is_pow2(width_cells as int) && is_pow2(
                height_cells as int,
            ) && width_cells >= 8 && height_cells >= 4),
        },
{
    let w = power_of_two_log(width_cells);
    let h = power_of_two_log(height_cells);
    match (w, h) {
        (Some(w), Some(h)) if width_cells >= 8 && height_cells >= 4 => Ok((w, h)),
        _ => Err("Manual goop region dimensions must be power-of-two cells (minimum 8x4)".to_owned()),
    }
}

} // verus!
