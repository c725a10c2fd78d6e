//! The codec's laws: what decoding gives on the event streams that encoded
//! documents produce.
//!
//! Decoding works on the events the XML reader yields, so the laws are stated
//! over event streams. The reader never yields a text event for an element
//! whose content is empty, and it yields whitespace-only content as a
//! separate ignorable event; the models here say so explicitly, which is also
//! why a field that is empty or whitespace-only in the wrong place cannot
//! survive a round trip.

use vstd::prelude::*;

use crate::task::TaskView;
use crate::xml_parser::DecodeState;
use crate::xml_parser::ReadEventV;
use crate::xml_parser::blank_task;
use crate::xml_parser::decode_fold;
use crate::xml_parser::decode_step;
use crate::xml_parser::fill_next_empty;
use crate::xml_parser::initial_state;
use crate::xml_parser::lemma_decode_fold_app;
use crate::xml_parser::lemma_decode_fold_push;
use crate::xml_parser::tasks_of_events;

verus! {

/// The characters the XML reader treats as whitespace.
pub open spec fn is_xml_whitespace(c: char) -> bool {
    c == ' ' || c == '\t' || c == '\r' || c == '\n'
}

/// Text that the reader reports as content: it holds at least one
/// non-whitespace character. Whitespace-only text comes back as an ignorable
/// event instead, and empty text produces no event at all.
pub open spec fn significant(s: Seq<char>) -> bool {
    exists|i: int| 0 <= i < s.len() && !is_xml_whitespace(#[trigger] s[i])
}

/// A task survives a round trip exactly when each field is either significant
/// text or empty, and the significant fields form a prefix: once a field is
/// empty, the fields after it are empty too. Otherwise the reader drops some
/// field's text and the fill-first-empty-field rule shifts later text into
/// earlier fields.
pub open spec fn round_trippable(t: TaskView) -> bool {
    &&& significant(t.description) || t.description.len() == 0
    &&& significant(t.due_date) || t.due_date.len() == 0
    &&& significant(t.important) || t.important.len() == 0
    &&& significant(t.due_date) ==> significant(t.description)
    &&& significant(t.important) ==> significant(t.due_date)
}

/// The events the reader yields for one serialized field element: its start
/// tag, its content where there is any — as text where significant, as an
/// ignorable event where whitespace-only — and its end tag.
pub open spec fn field_core_events(tag: Seq<char>, value: Seq<char>) -> Seq<ReadEventV> {
    if significant(value) {
        seq![ReadEventV::Start(tag), ReadEventV::Text(value), ReadEventV::End(tag)]
    } else if value.len() > 0 {
        seq![ReadEventV::Start(tag), ReadEventV::Other, ReadEventV::End(tag)]
    } else {
        seq![ReadEventV::Start(tag), ReadEventV::End(tag)]
    }
}

/// The events the reader yields for one serialized task: a `Task` element
/// holding the three field elements in fixed order.
pub open spec fn task_core_events(t: TaskView) -> Seq<ReadEventV> {
    seq![ReadEventV::Start("Task"@)] + field_core_events("Description"@, t.description)
        + field_core_events("Due_Date"@, t.due_date) + field_core_events(
        "Important"@,
        t.important,
    ) + seq![ReadEventV::End("Task"@)]
}

/// The events the reader yields for a whole serialized task list, ignorable
/// events aside.
pub open spec fn document_core_events(tasks: Seq<TaskView>) -> Seq<ReadEventV>
    decreases tasks.len(),
{
    if tasks.len() == 0 {
        Seq::empty()
    } else {
        document_core_events(tasks.drop_last()) + task_core_events(tasks.last())
    }
}

/// Decoding ignores the events it does not read: a stream decodes to the same
/// records as the stream with every ignorable event dropped — equivalently,
/// inserting whitespace between tags anywhere in a document leaves its
/// decoding unchanged.
pub proof fn lemma_decode_ignores_other(st: DecodeState, events: Seq<ReadEventV>)
    ensures
        decode_fold(st, events) == decode_fold(
            st,
            events.filter(|e: ReadEventV| !(e is Other)),
        ),
    decreases events.len(),
{
    reveal(Seq::filter);
    let pred = |e: ReadEventV| !(e is Other);
    if events.len() > 0 {
        let d = events.drop_last();
        let l = events.last();
        assert(events =~= d.push(l));
        lemma_decode_fold_push(st, d, l);
        lemma_decode_ignores_other(st, d);
        if pred(l) {
            assert(events.filter(pred) == d.filter(pred).push(l));
            lemma_decode_fold_push(st, d.filter(pred), l);
        } else {
            assert(events.filter(pred) == d.filter(pred));
            assert(decode_step(decode_fold(st, d), l) == decode_fold(st, d));
        }
    }
}

/// Folding one field element of an open record: a significant value fills the
/// record's next empty field, any other value leaves the record as it is.
proof fn lemma_field_core_fold(st: DecodeState, tag: Seq<char>, value: Seq<char>, t: TaskView)
    requires
        st.current == Some(t),
        tag != "Task"@,
    ensures
        decode_fold(st, field_core_events(tag, value)) == (DecodeState {
            current: Some(if significant(value) { fill_next_empty(t, value) } else { t }),
            done: st.done,
        }),
{
    let s = field_core_events(tag, value);
    if significant(value) {
        assert(s =~= Seq::empty().push(ReadEventV::Start(tag)).push(ReadEventV::Text(value)).push(
            ReadEventV::End(tag),
        ));
        lemma_decode_fold_push(
            st,
            Seq::empty().push(ReadEventV::Start(tag)).push(ReadEventV::Text(value)),
            ReadEventV::End(tag),
        );
        lemma_decode_fold_push(
            st,
            Seq::empty().push(ReadEventV::Start(tag)),
            ReadEventV::Text(value),
        );
        lemma_decode_fold_push(st, Seq::empty(), ReadEventV::Start(tag));
    } else if value.len() > 0 {
        assert(s =~= Seq::empty().push(ReadEventV::Start(tag)).push(ReadEventV::Other).push(
            ReadEventV::End(tag),
        ));
        lemma_decode_fold_push(
            st,
            Seq::empty().push(ReadEventV::Start(tag)).push(ReadEventV::Other),
            ReadEventV::End(tag),
        );
        lemma_decode_fold_push(st, Seq::empty().push(ReadEventV::Start(tag)), ReadEventV::Other);
        lemma_decode_fold_push(st, Seq::empty(), ReadEventV::Start(tag));
    } else {
        assert(s =~= Seq::empty().push(ReadEventV::Start(tag)).push(ReadEventV::End(tag)));
        lemma_decode_fold_push(st, Seq::empty().push(ReadEventV::Start(tag)), ReadEventV::End(tag));
        lemma_decode_fold_push(st, Seq::empty(), ReadEventV::Start(tag));
    }
}

/// Folding the events of one round-trippable task appends exactly that task.
proof fn lemma_task_core_fold(st: DecodeState, t: TaskView)
    requires
        round_trippable(t),
    ensures
        decode_fold(st, task_core_events(t)) == (DecodeState {
            current: None,
            done: st.done.push(t),
        }),
{
    reveal_strlit("Task");
    reveal_strlit("Description");
    reveal_strlit("Due_Date");
    reveal_strlit("Important");
    assert("Task"@.len() == 4);
    assert("Description"@.len() == 11);
    assert("Due_Date"@.len() == 8);
    assert("Important"@.len() == 9);
    let f1 = field_core_events("Description"@, t.description);
    let f2 = field_core_events("Due_Date"@, t.due_date);
    let f3 = field_core_events("Important"@, t.important);
    let head = seq![ReadEventV::Start("Task"@)];
    let tail = seq![ReadEventV::End("Task"@)];
    let s = task_core_events(t);
    assert(s == head + f1 + f2 + f3 + tail);
    lemma_decode_fold_app(st, head + f1 + f2 + f3, tail);
    lemma_decode_fold_app(st, head + f1 + f2, f3);
    lemma_decode_fold_app(st, head + f1, f2);
    lemma_decode_fold_app(st, head, f1);
    lemma_decode_fold_push(st, Seq::empty(), ReadEventV::Start("Task"@));
    assert(head =~= Seq::empty().push(ReadEventV::Start("Task"@)));
    let st0 = DecodeState { current: Some(blank_task()), done: st.done };
    assert(decode_fold(st, head) == st0);
    let c1 = if significant(t.description) {
        fill_next_empty(blank_task(), t.description)
    } else {
        blank_task()
    };
    lemma_field_core_fold(st0, "Description"@, t.description, blank_task());
    let st1 = DecodeState { current: Some(c1), done: st.done };
    let c2 = if significant(t.due_date) {
        fill_next_empty(c1, t.due_date)
    } else {
        c1
    };
    lemma_field_core_fold(st1, "Due_Date"@, t.due_date, c1);
    let st2 = DecodeState { current: Some(c2), done: st.done };
    let c3 = if significant(t.important) {
        fill_next_empty(c2, t.important)
    } else {
        c2
    };
    lemma_field_core_fold(st2, "Important"@, t.important, c2);
    let st3 = DecodeState { current: Some(c3), done: st.done };
    assert(decode_fold(st, head + f1 + f2 + f3) == st3);
    lemma_decode_fold_push(st3, Seq::empty(), ReadEventV::End("Task"@));
    assert(tail =~= Seq::empty().push(ReadEventV::End("Task"@)));
    assert(c3 =~= t);
}

/// Folding the canonical events of a round-trippable task list recovers the
/// whole list.
proof fn lemma_document_core_fold(st: DecodeState, tasks: Seq<TaskView>)
    requires
        st.current is None,
        forall|i: int| 0 <= i < tasks.len() ==> round_trippable(#[trigger] tasks[i]),
    ensures
        decode_fold(st, document_core_events(tasks)) == (DecodeState {
            current: None,
            done: st.done + tasks,
        }),
    decreases tasks.len(),
{
    if tasks.len() == 0 {
        assert(st.done + tasks =~= st.done);
        assert((DecodeState { current: None, done: st.done + tasks }) =~= st);
    } else {
        let front = tasks.drop_last();
        lemma_decode_fold_app(st, document_core_events(front), task_core_events(tasks.last()));
        lemma_document_core_fold(st, front);
        lemma_task_core_fold(
            DecodeState { current: None, done: st.done + front },
            tasks.last(),
        );
        assert((st.done + front).push(tasks.last()) =~= st.done + tasks);
    }
}

/// Round trip: decoding gives back exactly the tasks that were encoded. The
/// hypothesis says what the reader yields on the encoded document: the
/// canonical events of the task list, with any number of ignorable events —
/// the document declaration, whitespace between tags — interleaved anywhere.
pub proof fn lemma_round_trip(tasks: Seq<TaskView>, events: Seq<ReadEventV>)
    requires
        forall|i: int| 0 <= i < tasks.len() ==> round_trippable(#[trigger] tasks[i]),
        events.filter(|e: ReadEventV| !(e is Other)) == document_core_events(tasks),
    ensures
        tasks_of_events(events) == tasks,
{
    lemma_decode_ignores_other(initial_state(), events);
    lemma_document_core_fold(initial_state(), tasks);
    assert(Seq::<TaskView>::empty() + tasks =~= tasks);
}

/// Whether an event opens or closes a `Task` element.
pub open spec fn mentions_task(e: ReadEventV) -> bool {
    ||| e matches ReadEventV::Start(name) && name == "Task"@
    ||| e matches ReadEventV::End(name) && name == "Task"@
}

/// A well-formed `Task` block: a `Task` start tag, then any events that
/// neither open nor close a `Task` element, then the matching end tag.
pub open spec fn is_task_block(b: Seq<ReadEventV>) -> bool {
    &&& b.len() >= 2
    &&& b[0] == ReadEventV::Start("Task"@)
    &&& b.last() == ReadEventV::End("Task"@)
    &&& forall|i: int| 1 <= i < b.len() - 1 ==> !mentions_task(#[trigger] b[i])
}

/// Runs a record through a stream of events: each text node fills the next
/// empty field, everything else leaves the record as it is.
pub open spec fn fill_fold(t: TaskView, events: Seq<ReadEventV>) -> TaskView
    decreases events.len(),
{
    if events.len() == 0 {
        t
    } else {
        let t2 = match events[0] {
            ReadEventV::Text(text) => fill_next_empty(t, text),
            _ => t,
        };
        fill_fold(t2, events.skip(1))
    }
}

/// The record a well-formed `Task` block yields: a blank record run through
/// the block's interior.
pub open spec fn block_task(b: Seq<ReadEventV>) -> TaskView {
    fill_fold(blank_task(), b.subrange(1, b.len() - 1))
}

/// While a record is open, events that neither open nor close a `Task`
/// element only fill the record's fields; nothing is completed.
proof fn lemma_interior_fold(st: DecodeState, events: Seq<ReadEventV>, t: TaskView)
    requires
        st.current == Some(t),
        forall|i: int| 0 <= i < events.len() ==> !mentions_task(#[trigger] events[i]),
    ensures
        decode_fold(st, events) == (DecodeState {
            current: Some(fill_fold(t, events)),
            done: st.done,
        }),
    decreases events.len(),
{
    if events.len() == 0 {
        assert((DecodeState { current: Some(fill_fold(t, events)), done: st.done }) =~= st);
    } else {
        let st2 = decode_step(st, events[0]);
        let t2 = match events[0] {
            ReadEventV::Text(text) => fill_next_empty(t, text),
            _ => t,
        };
        assert(st2 == DecodeState { current: Some(t2), done: st.done });
        lemma_interior_fold(st2, events.skip(1), t2);
    }
}

/// Folding one well-formed `Task` block from a state with no open record
/// appends exactly the block's record.
proof fn lemma_block_fold(st: DecodeState, b: Seq<ReadEventV>)
    requires
        is_task_block(b),
    ensures
        decode_fold(st, b) == (DecodeState { current: None, done: st.done.push(block_task(b)) }),
{
    let interior = b.subrange(1, b.len() - 1);
    let head = seq![b[0]];
    let tail = seq![b.last()];
    assert(b =~= head + interior + tail);
    lemma_decode_fold_app(st, head + interior, tail);
    lemma_decode_fold_app(st, head, interior);
    lemma_decode_fold_push(st, Seq::empty(), b[0]);
    assert(head =~= Seq::empty().push(b[0]));
    let st0 = DecodeState { current: Some(blank_task()), done: st.done };
    assert(decode_fold(st, head) == st0);
    assert(forall|i: int| 0 <= i < interior.len() ==> !mentions_task(#[trigger] interior[i]));
    lemma_interior_fold(st0, interior, blank_task());
    let st1 = DecodeState { current: Some(block_task(b)), done: st.done };
    lemma_decode_fold_push(st1, Seq::empty(), b.last());
    assert(tail =~= Seq::empty().push(b.last()));
}

/// Folding a concatenation of well-formed `Task` blocks appends each block's
/// record, in block order.
proof fn lemma_blocks_fold(st: DecodeState, blocks: Seq<Seq<ReadEventV>>)
    requires
        st.current is None,
        forall|i: int| 0 <= i < blocks.len() ==> is_task_block(#[trigger] blocks[i]),
    ensures
        decode_fold(st, blocks.flatten()) == (DecodeState {
            current: None,
            done: st.done + Seq::new(blocks.len(), |i: int| block_task(blocks[i])),
        }),
    decreases blocks.len(),
{
    let records = Seq::new(blocks.len(), |i: int| block_task(blocks[i]));
    if blocks.len() == 0 {
        assert(blocks.flatten() =~= Seq::<ReadEventV>::empty());
        assert(st.done + records =~= st.done);
        assert((DecodeState { current: None, done: st.done + records }) =~= st);
    } else {
        let rest = blocks.drop_first();
        assert(blocks.flatten() == blocks.first() + rest.flatten());
        lemma_decode_fold_app(st, blocks.first(), rest.flatten());
        lemma_block_fold(st, blocks.first());
        let st1 = DecodeState { current: None, done: st.done.push(block_task(blocks.first())) };
        assert(forall|i: int| 0 <= i < rest.len() ==> is_task_block(#[trigger] rest[i]));
        lemma_blocks_fold(st1, rest);
        assert(st1.done + Seq::new(rest.len(), |i: int| block_task(rest[i])) =~= st.done
            + records);
    }
}

/// A document whose events form N well-formed `Task` blocks decodes to
/// exactly N records, in document order, each the record its block describes.
pub proof fn lemma_task_blocks_decode(blocks: Seq<Seq<ReadEventV>>)
    requires
        forall|i: int| 0 <= i < blocks.len() ==> is_task_block(#[trigger] blocks[i]),
    ensures
        tasks_of_events(blocks.flatten()) == Seq::new(
            blocks.len(),
            |i: int| block_task(blocks[i]),
        ),
{
    lemma_blocks_fold(initial_state(), blocks);
    assert(Seq::<TaskView>::empty() + Seq::new(blocks.len(), |i: int| block_task(blocks[i]))
        =~= Seq::new(blocks.len(), |i: int| block_task(blocks[i])));
}

} // verus!
