//! An index from the text of a token to the spans of the tokens with that
//! text, in the order in which they came.
//!
//! The spans of one text form a queue: they are put in at the back and taken
//! from the front, so that a span is handed out once, and the first that
//! came in is the first that goes out. A text whose queue has run empty is
//! dropped from the index.

use vstd::prelude::*;
use crate::text::str_equal;
use crate::text_span::Span;

verus! {

/// The spans of the tokens of one text that are not handed out yet, the
/// oldest first.
#[derive(Clone, Debug, PartialEq, Eq)]
pub struct SpanQueue {
    pub text: String,
    pub spans: Vec<Span>,
}

/// The model of a [`SpanQueue`].
pub struct SpanQueueView {
    pub text: Seq<char>,
    pub spans: Seq<Span>,
}

impl DeepView for SpanQueue {
    type V = SpanQueueView;

    open spec fn deep_view(&self) -> SpanQueueView {
        SpanQueueView { text: self.text@, spans: self.spans@ }
    }
}

/// The index: one queue of spans for each text.
#[derive(Clone, Debug, PartialEq, Eq)]
pub struct SpanIndex {
    pub queues: Vec<SpanQueue>,
}

/// Whether the queues form an index: no text has two queues, and no queue is
/// empty.
pub open spec fn well_formed(e: Seq<SpanQueueView>) -> bool {
    &&& forall|i: int, j: int| 0 <= i < j < e.len() ==> e[i].text != e[j].text
    &&& forall|i: int| 0 <= i < e.len() ==> (#[trigger] e[i]).spans.len() > 0
}

/// Whether the queue at `k` is that of `text`.
pub open spec fn is_key(e: Seq<SpanQueueView>, k: int, text: Seq<char>) -> bool {
    0 <= k < e.len() && e[k].text == text
}

/// Whether `text` has a queue.
pub open spec fn has_key(e: Seq<SpanQueueView>, text: Seq<char>) -> bool {
    exists|k: int| is_key(e, k, text)
}

/// The spans of `text` that are not handed out yet, the oldest first; none
/// where `text` has no queue.
pub open spec fn queue_of(e: Seq<SpanQueueView>, text: Seq<char>) -> Seq<Span> {
    if has_key(e, text) {
        e[choose|k: int| is_key(e, k, text)].spans
    } else {
        Seq::empty()
    }
}

/// In an index the queue of a text is the one that carries the text.
pub proof fn lemma_queue_at(e: Seq<SpanQueueView>, k: int, text: Seq<char>)
    requires
        well_formed(e),
        is_key(e, k, text),
    ensures
        has_key(e, text),
        queue_of(e, text) == e[k].spans,
{
    let c = choose|c: int| is_key(e, c, text);
    if c < k {
        assert(e[c].text != e[k].text);
    }
    if k < c {
        assert(e[k].text != e[c].text);
    }
}

/// An index stays one when the spans of one of its queues are changed and
/// not all taken: that text has the new spans, and each other text keeps
/// its own.
proof fn lemma_queue_changed(
    before: Seq<SpanQueueView>,
    after: Seq<SpanQueueView>,
    k: int,
)
    requires
        well_formed(before),
        0 <= k < before.len(),
        after == before.update(k, after[k]),
        after[k].text == before[k].text,
        after[k].spans.len() > 0,
    ensures
        well_formed(after),
        queue_of(after, before[k].text) == after[k].spans,
        forall|other: Seq<char>|
            other != before[k].text ==> queue_of(after, other) == queue_of(before, other),
{
    assert forall|i: int, j: int| 0 <= i < j < after.len() implies after[i].text
        != after[j].text by {
        assert(after[i].text == before[i].text);
        assert(after[j].text == before[j].text);
    }
    assert forall|i: int| 0 <= i < after.len() implies (#[trigger] after[i]).spans.len() > 0 by {
        if i != k {
            assert(after[i] == before[i]);
        }
    }
    lemma_queue_at(after, k, before[k].text);
    assert forall|other: Seq<char>| other != before[k].text implies queue_of(after, other)
        == queue_of(before, other) by {
        if has_key(before, other) {
            let c = choose|c: int| is_key(before, c, other);
            assert(after[c] == before[c]);
            assert(is_key(after, c, other));
            lemma_queue_at(after, c, other);
        } else if has_key(after, other) {
            let c = choose|c: int| is_key(after, c, other);
            assert(after[c].text == before[c].text);
            assert(is_key(before, c, other));
        }
    }
}

/// An index stays one when a queue is added for a text that had none: that
/// text has the spans of the new queue, and each other text keeps its own.
proof fn lemma_queue_added(before: Seq<SpanQueueView>, added: SpanQueueView)
    requires
        well_formed(before),
        !has_key(before, added.text),
        added.spans.len() > 0,
    ensures
        well_formed(before.push(added)),
        queue_of(before.push(added), added.text) == added.spans,
        forall|other: Seq<char>|
            other != added.text ==> queue_of(before.push(added), other) == queue_of(
                before,
                other,
            ),
{
    let after = before.push(added);
    assert forall|i: int, j: int| 0 <= i < j < after.len() implies after[i].text
        != after[j].text by {
        if j == before.len() {
            assert(!is_key(before, i, added.text));
        } else {
            assert(after[i] == before[i] && after[j] == before[j]);
        }
    }
    assert forall|i: int| 0 <= i < after.len() implies (#[trigger] after[i]).spans.len() > 0 by {
        if i < before.len() {
            assert(after[i] == before[i]);
        }
    }
    lemma_queue_at(after, before.len() as int, added.text);
    assert forall|other: Seq<char>| other != added.text implies queue_of(after, other)
        == queue_of(before, other) by {
        if has_key(before, other) {
            let c = choose|c: int| is_key(before, c, other);
            assert(is_key(after, c, other));
            lemma_queue_at(after, c, other);
        } else if has_key(after, other) {
            let c = choose|c: int| is_key(after, c, other);
            assert(is_key(before, c, other));
        }
    }
}

/// An index stays one when one of its queues is dropped: that text has no
/// queue any more, and each other text keeps its own.
proof fn lemma_queue_dropped(before: Seq<SpanQueueView>, k: int)
    requires
        well_formed(before),
        0 <= k < before.len(),
    ensures
        well_formed(before.remove(k)),
        !has_key(before.remove(k), before[k].text),
        forall|other: Seq<char>|
            other != before[k].text ==> queue_of(before.remove(k), other) == queue_of(
                before,
                other,
            ),
{
    let after = before.remove(k);
    assert forall|i: int| 0 <= i < after.len() implies #[trigger] after[i] == before[if i < k {
        i
    } else {
        i + 1
    }] by {}
    assert forall|i: int, j: int| 0 <= i < j < after.len() implies after[i].text
        != after[j].text by {
        assert(after[i] == before[if i < k {
            i
        } else {
            i + 1
        }]);
        assert(after[j] == before[if j < k {
            j
        } else {
            j + 1
        }]);
    }
    if has_key(after, before[k].text) {
        let c = choose|c: int| is_key(after, c, before[k].text);
        assert(after[c] == before[if c < k {
            c
        } else {
            c + 1
        }]);
    }
    assert forall|other: Seq<char>| other != before[k].text implies queue_of(after, other)
        == queue_of(before, other) by {
        if has_key(before, other) {
            let c = choose|c: int| is_key(before, c, other);
            let a = if c < k {
                c
            } else {
                c - 1
            };
            assert(after[a] == before[c]);
            assert(is_key(after, a, other));
            lemma_queue_at(after, a, other);
        } else if has_key(after, other) {
            let c = choose|c: int| is_key(after, c, other);
            let a = if c < k {
                c
            } else {
                c + 1
            };
            assert(after[c] == before[a]);
            assert(is_key(before, a, other));
        }
    }
}

impl SpanIndex {
    /// The queues of the index.
    pub open spec fn entries(&self) -> Seq<SpanQueueView> {
        self.queues.deep_view()
    }

    /// Whether the index is in order: see [`well_formed`].
    pub open spec fn wf(&self) -> bool {
        well_formed(self.entries())
    }

    /// The spans of `text` that are not handed out yet.
    pub open spec fn queue(&self, text: Seq<char>) -> Seq<Span> {
        queue_of(self.entries(), text)
    }

    /// The index without any span.
    pub fn new() -> (r: SpanIndex)
        ensures
            r.wf(),
            forall|text: Seq<char>| r.queue(text) == Seq::<Span>::empty(),
    {
        let queues: Vec<SpanQueue> = Vec::new();
        assert(queues.deep_view() =~= Seq::<SpanQueueView>::empty());
        SpanIndex { queues }
    }

    /// Where the queue of `text` stands, if it has one.
    fn position(&self, text: &str) -> (r: Option<usize>)
        requires
            self.wf(),
        ensures
            r matches Some(k) ==> is_key(self.entries(), k as int, text@),
            r is None ==> !has_key(self.entries(), text@),
    {
        let mut k: usize = 0;
        while k < self.queues.len()
            invariant
                k <= self.queues.len(),
                forall|j: int| 0 <= j < k ==> !is_key(self.entries(), j, text@),
            decreases self.queues.len() - k,
        {
            if str_equal(self.queues[k].text.as_str(), text) {
                assert(self.entries()[k as int].text == text@);
                return Some(k);
            }
            assert(self.entries()[k as int].text == self.queues[k as int].text@);
            k += 1;
        }
        None
    }

    /// Puts a span at the back of the queue of its text.
    pub fn push(&mut self, text: &str, span: Span)
        requires
            old(self).wf(),
        ensures
            final(self).wf(),
            final(self).queue(text@) == old(self).queue(text@).push(span),
            forall|other: Seq<char>|
                other != text@ ==> final(self).queue(other) == old(self).queue(other),
    {
        let ghost before = self.entries();
        match self.position(text) {
            Some(k) => {
                let mut entry = self.queues.remove(k);
                entry.spans.push(span);
                self.queues.insert(k, entry);
                proof {
                    let after = self.entries();
                    assert(after =~= before.update(k as int, after[k as int]));
                    lemma_queue_at(before, k as int, text@);
                    lemma_queue_changed(before, after, k as int);
                }
            },
            None => {
                let mut spans: Vec<Span> = Vec::new();
                spans.push(span);
                let entry = SpanQueue { text: String::from_str(text), spans };
                let ghost added = entry.deep_view();
                self.queues.push(entry);
                proof {
                    assert(self.entries() =~= before.push(added));
                    assert(added.spans =~= Seq::<Span>::empty().push(span));
                    lemma_queue_added(before, added);
                }
            },
        }
    }

    /// Takes the oldest span of `text` that is not handed out yet. There is
    /// none where `text` has no queue.
    pub fn pop(&mut self, text: &str) -> (r: Option<Span>)
        requires
            old(self).wf(),
        ensures
            final(self).wf(),
            r == if old(self).queue(text@).len() > 0 {
                Some(old(self).queue(text@)[0])
            } else {
                None
            },
            final(self).queue(text@) == if old(self).queue(text@).len() > 0 {
                old(self).queue(text@).drop_first()
            } else {
                old(self).queue(text@)
            },
            forall|other: Seq<char>|
                other != text@ ==> final(self).queue(other) == old(self).queue(other),
    {
        let ghost before = self.entries();
        match self.position(text) {
            Some(k) => {
                proof {
                    lemma_queue_at(before, k as int, text@);
                    assert(before[k as int].spans == self.queues[k as int].spans@);
                }
                let mut entry = self.queues.remove(k);
                assert(self.entries() =~= before.remove(k as int));
                let span = entry.spans.remove(0);
                assert(entry.spans@ =~= before[k as int].spans.drop_first());
                if entry.spans.len() > 0 {
                    self.queues.insert(k, entry);
                    proof {
                        let after = self.entries();
                        assert(after =~= before.update(k as int, after[k as int]));
                        lemma_queue_changed(before, after, k as int);
                    }
                } else {
                    proof {
                        lemma_queue_dropped(before, k as int);
                        assert(before[k as int].spans.drop_first() =~= Seq::<Span>::empty());
                    }
                }
                Some(span)
            },
            None => None,
        }
    }
}

} // verus!
