//! The task store format: converts between the on-disk XML document and the
//! in-memory ordered sequence of task records.
//!
//! The document is a flat sequence of `Task` elements (no root wrapper), each
//! holding a `Description`, a `Due_Date` and an `Important` child element, in
//! that order. Decoding works over a stream of markup events: a new record
//! opens at every `Task` start tag, is appended at the matching end tag, and
//! each text node inside an open record fills the first still-empty field, in
//! field order. Text is never trimmed.

use vstd::prelude::*;

use crate::errors::DecodeError;
use crate::task::Task;
use crate::task::TaskView;

verus! {

/// One markup event seen while reading a document: an element start tag with
/// its local name, a text node, an element end tag, or anything else (the
/// document declaration, whitespace between tags, comments), which decoding
/// ignores.
pub enum ReadEvent {
    Start(String),
    Text(String),
    End(String),
    Other,
}

/// The mathematical model of a read event.
pub enum ReadEventV {
    Start(Seq<char>),
    Text(Seq<char>),
    End(Seq<char>),
    Other,
}

impl DeepView for ReadEvent {
    type V = ReadEventV;

    open spec fn deep_view(&self) -> ReadEventV {
        match self {
            ReadEvent::Start(name) => ReadEventV::Start(name@),
            ReadEvent::Text(text) => ReadEventV::Text(text@),
            ReadEvent::End(name) => ReadEventV::End(name@),
            ReadEvent::Other => ReadEventV::Other,
        }
    }
}

/// The decoder's state: the record currently being filled, if a `Task`
/// element is open, and the records already completed.
#[verifier::ext_equal]
pub struct DecodeState {
    pub current: Option<TaskView>,
    pub done: Seq<TaskView>,
}

/// A task whose three fields are all empty, as opened by a `Task` start tag.
pub open spec fn blank_task() -> TaskView {
    TaskView { description: Seq::empty(), due_date: Seq::empty(), important: Seq::empty() }
}

/// Assigns a text node to the first still-empty field, in the order
/// description, due date, important; a task whose fields are all filled
/// ignores further text.
pub open spec fn fill_next_empty(t: TaskView, text: Seq<char>) -> TaskView {
    if t.description.len() == 0 {
        TaskView { description: text, ..t }
    } else if t.due_date.len() == 0 {
        TaskView { due_date: text, ..t }
    } else if t.important.len() == 0 {
        TaskView { important: text, ..t }
    } else {
        t
    }
}

/// How one event advances the decoder: a `Task` start tag opens a blank
/// record (discarding any unfinished one), a `Task` end tag completes the
/// open record, a text node fills the open record's next empty field, and
/// every other event changes nothing.
pub open spec fn decode_step(st: DecodeState, e: ReadEventV) -> DecodeState {
    match e {
        ReadEventV::Start(name) => {
            if name == "Task"@ {
                DecodeState { current: Some(blank_task()), done: st.done }
            } else {
                st
            }
        },
        ReadEventV::End(name) => {
            if name == "Task"@ {
                match st.current {
                    Some(t) => DecodeState { current: None, done: st.done.push(t) },
                    None => st,
                }
            } else {
                st
            }
        },
        ReadEventV::Text(text) => {
            match st.current {
                Some(t) => DecodeState { current: Some(fill_next_empty(t, text)), done: st.done },
                None => st,
            }
        },
        ReadEventV::Other => st,
    }
}

/// Runs the decoder over a whole event sequence.
pub open spec fn decode_fold(st: DecodeState, events: Seq<ReadEventV>) -> DecodeState
    decreases events.len(),
{
    if events.len() == 0 {
        st
    } else {
        decode_fold(decode_step(st, events[0]), events.skip(1))
    }
}

/// The decoder's starting state: no open record, nothing completed.
pub open spec fn initial_state() -> DecodeState {
    DecodeState { current: None, done: Seq::empty() }
}

/// The records a whole event sequence decodes to; an unfinished record at the
/// end of the stream is discarded.
pub open spec fn tasks_of_events(events: Seq<ReadEventV>) -> Seq<TaskView> {
    decode_fold(initial_state(), events).done
}

/// Folding distributes over concatenation of event sequences.
pub proof fn lemma_decode_fold_app(st: DecodeState, a: Seq<ReadEventV>, b: Seq<ReadEventV>)
    ensures
        decode_fold(st, a + b) == decode_fold(decode_fold(st, a), b),
    decreases a.len(),
{
    if a.len() == 0 {
        assert(a + b =~= b);
    } else {
        assert((a + b)[0] == a[0]);
        assert((a + b).skip(1) =~= a.skip(1) + b);
        lemma_decode_fold_app(decode_step(st, a[0]), a.skip(1), b);
    }
}

/// Folding one more event applies one more step.
pub proof fn lemma_decode_fold_push(st: DecodeState, a: Seq<ReadEventV>, e: ReadEventV)
    ensures
        decode_fold(st, a.push(e)) == decode_step(decode_fold(st, a), e),
{
    assert(a.push(e) =~= a + seq![e]);
    lemma_decode_fold_app(st, a, seq![e]);
    let mid = decode_fold(st, a);
    assert(seq![e][0] == e);
    assert(seq![e].skip(1) =~= Seq::<ReadEventV>::empty());
    assert(decode_fold(mid, seq![e]) == decode_fold(decode_step(mid, e), seq![e].skip(1)));
    assert(decode_fold(decode_step(mid, e), Seq::<ReadEventV>::empty()) == decode_step(mid, e));
}

/// Decodes an event stream into the sequence of task records it describes,
/// exactly as `tasks_of_events` states.
pub fn decode_events(events: &Vec<ReadEvent>) -> (tasks: Vec<Task>)
    ensures
        tasks.deep_view() == tasks_of_events(events.deep_view()),
{
    let task_tag: String = "Task".to_owned();
    let mut current: Option<Task> = None;
    let mut done: Vec<Task> = Vec::new();
    let mut i: usize = 0;
    proof {
        assert(events.deep_view().take(0) =~= Seq::<ReadEventV>::empty());
        assert(done.deep_view() =~= Seq::<TaskView>::empty());
    }
    while i < events.len()
        invariant
            i <= events.len(),
            task_tag@ == "Task"@,
            (DecodeState { current: current.deep_view(), done: done.deep_view() })
                == decode_fold(initial_state(), events.deep_view().take(i as int)),
        decreases events.len() - i,
    {
        let ghost pre = DecodeState { current: current.deep_view(), done: done.deep_view() };
        match &events[i] {
            ReadEvent::Start(name) => {
                if *name == task_tag {
                    current = Some(
                        Task {
                            description: String::new(),
                            due_date: String::new(),
                            important: String::new(),
                        },
                    );
                }
            },
            ReadEvent::End(name) => {
                if *name == task_tag {
                    let finished = current;
                    current = None;
                    match finished {
                        Some(t) => done.push(t),
                        None => (),
                    }
                }
            },
            ReadEvent::Text(text) => {
                current = match current {
                    Some(mut t) => {
                        if t.description.as_str().is_empty() {
                            t.description = text.clone();
                        } else if t.due_date.as_str().is_empty() {
                            t.due_date = text.clone();
                        } else if t.important.as_str().is_empty() {
                            t.important = text.clone();
                        }
                        Some(t)
                    },
                    None => None,
                };
            },
            ReadEvent::Other => (),
        }
        proof {
            let ev = events.deep_view();
            assert(ev[i as int] == events@[i as int].deep_view());
            assert(ev.take(i + 1) =~= ev.take(i as int).push(ev[i as int]));
            lemma_decode_fold_push(initial_state(), ev.take(i as int), ev[i as int]);
            assert((DecodeState { current: current.deep_view(), done: done.deep_view() })
                =~= decode_step(pre, ev[i as int]));
        }
        i = i + 1;
    }
    proof {
        assert(events.deep_view().take(events.len() as int) =~= events.deep_view());
    }
    done
}

/// What the XML parser yields on a byte sequence: the event stream of a
/// well-formed document, or nothing where the bytes are not a well-formed
/// document. Parsing is a function of the bytes alone.
pub uninterp spec fn xml_events_of(data: Seq<u8>) -> Option<Seq<ReadEventV>>;

/// Relies on xml's `EventReader`: it turns a byte stream into markup events,
/// deterministically, and fails on input that is not a well-formed document;
/// in particular an empty input has no root element and always fails.
#[verifier::external_body]
fn parse_events(data: &[u8]) -> (r: Result<Vec<ReadEvent>, DecodeError>)
    ensures
        r matches Ok(events) ==> xml_events_of(data@) == Some(events.deep_view()),
        r is Err ==> xml_events_of(data@) is None,
        data@.len() == 0 ==> r is Err,
{
    let mut events = Vec::new();
    for event in xml::reader::EventReader::new(data) {
        events.push(match event {
            Err(_) => return Err(DecodeError),
            Ok(xml::reader::XmlEvent::StartElement { name, .. }) => ReadEvent::Start(name.local_name),
            Ok(xml::reader::XmlEvent::EndElement { name }) => ReadEvent::End(name.local_name),
            Ok(xml::reader::XmlEvent::Characters(text)) => ReadEvent::Text(text),
            Ok(_) => ReadEvent::Other,
        });
    }
    Ok(events)
}

/// Decodes a whole document, given as its bytes, into the task records it
/// holds. Fails exactly where the bytes are not a well-formed document; in
/// particular an empty input always fails.
pub fn read(data: &[u8]) -> (r: Result<Vec<Task>, DecodeError>)
    ensures
        r matches Ok(tasks) ==> xml_events_of(data@) matches Some(events)
            && tasks.deep_view() == tasks_of_events(events),
        r is Err <==> xml_events_of(data@) is None,
        data@.len() == 0 ==> r is Err,
{
    match parse_events(data) {
        Ok(events) => Ok(decode_events(&events)),
        Err(e) => Err(e),
    }
}

/// One markup event handed to the document writer: an element start tag with
/// its name, a text node, or an end tag closing the innermost open element.
pub enum WriteEvent {
    Start(String),
    Text(String),
    End,
}

/// The mathematical model of a write event.
pub enum WriteEventV {
    Start(Seq<char>),
    Text(Seq<char>),
    End,
}

impl DeepView for WriteEvent {
    type V = WriteEventV;

    open spec fn deep_view(&self) -> WriteEventV {
        match self {
            WriteEvent::Start(name) => WriteEventV::Start(name@),
            WriteEvent::Text(text) => WriteEventV::Text(text@),
            WriteEvent::End => WriteEventV::End,
        }
    }
}

/// The events that serialize one task: a `Task` element holding the three
/// field elements in fixed order, each field's text set verbatim from the
/// record.
pub open spec fn task_write_events(t: TaskView) -> Seq<WriteEventV> {
    seq![
        WriteEventV::Start("Task"@),
        WriteEventV::Start("Description"@),
        WriteEventV::Text(t.description),
        WriteEventV::End,
        WriteEventV::Start("Due_Date"@),
        WriteEventV::Text(t.due_date),
        WriteEventV::End,
        WriteEventV::Start("Important"@),
        WriteEventV::Text(t.important),
        WriteEventV::End,
        WriteEventV::End,
    ]
}

/// The events that serialize a whole task list, one `Task` element per record,
/// in list order.
pub open spec fn write_events_of(tasks: Seq<TaskView>) -> Seq<WriteEventV>
    decreases tasks.len(),
{
    if tasks.len() == 0 {
        Seq::empty()
    } else {
        write_events_of(tasks.drop_last()) + task_write_events(tasks.last())
    }
}

/// How one write event changes the element nesting depth.
pub open spec fn depth_change(e: WriteEventV) -> int {
    match e {
        WriteEventV::Start(_) => 1,
        WriteEventV::Text(_) => 0,
        WriteEventV::End => -1,
    }
}

/// The element nesting depth after the first `n` events.
pub open spec fn depth_after(events: Seq<WriteEventV>, n: int) -> int
    decreases n,
{
    if n <= 0 {
        0
    } else {
        depth_after(events, n - 1) + depth_change(events[n - 1])
    }
}

/// Every end tag closes an element that is actually open.
pub open spec fn well_nested(events: Seq<WriteEventV>) -> bool {
    forall|i: int|
        #![trigger events[i]]
        0 <= i < events.len() && events[i] is End ==> depth_after(events, i) > 0
}

/// The nesting depth within a concatenation splits at the boundary.
pub proof fn lemma_depth_after_app(a: Seq<WriteEventV>, b: Seq<WriteEventV>, n: int)
    ensures
        0 <= n <= a.len() ==> depth_after(a + b, n) == depth_after(a, n),
        a.len() <= n <= a.len() + b.len() ==> depth_after(a + b, n) == depth_after(
            a,
            a.len() as int,
        ) + depth_after(b, n - a.len()),
    decreases (if n > 0 { n } else { 0 }),
{
    if n > 0 {
        lemma_depth_after_app(a, b, n - 1);
        if n - 1 < a.len() {
            assert((a + b)[n - 1] == a[n - 1]);
        } else if n - 1 < a.len() + b.len() {
            assert((a + b)[n - 1] == b[n - 1 - a.len()]);
        }
    }
}

/// The events of one task are well nested on their own: each of their end
/// tags has an open element, and they leave the depth where it started.
pub proof fn lemma_task_events_depth(t: TaskView)
    ensures
        task_write_events(t).len() == 11,
        forall|k: int|
            #![trigger task_write_events(t)[k]]
            0 <= k < 11 && task_write_events(t)[k] is End ==> depth_after(
                task_write_events(t),
                k,
            ) > 0,
        depth_after(task_write_events(t), 11) == 0,
{
    let b = task_write_events(t);
    assert(depth_after(b, 0) == 0);
    assert(depth_after(b, 1) == 1);
    assert(depth_after(b, 2) == 2);
    assert(depth_after(b, 3) == 2);
    assert(depth_after(b, 4) == 1);
    assert(depth_after(b, 5) == 2);
    assert(depth_after(b, 6) == 2);
    assert(depth_after(b, 7) == 1);
    assert(depth_after(b, 8) == 2);
    assert(depth_after(b, 9) == 2);
    assert(depth_after(b, 10) == 1);
    assert(depth_after(b, 11) == 0);
}

/// The serialization of any task list is well nested, so the document writer
/// accepts it.
pub proof fn lemma_write_events_well_nested(tasks: Seq<TaskView>)
    ensures
        well_nested(write_events_of(tasks)),
        depth_after(write_events_of(tasks), write_events_of(tasks).len() as int) == 0,
    decreases tasks.len(),
{
    if tasks.len() > 0 {
        let a = write_events_of(tasks.drop_last());
        let b = task_write_events(tasks.last());
        let w = write_events_of(tasks);
        assert(w == a + b);
        lemma_write_events_well_nested(tasks.drop_last());
        lemma_task_events_depth(tasks.last());
        lemma_depth_after_app(a, b, w.len() as int);
        assert forall|i: int| 0 <= i < w.len() && #[trigger] w[i] is End implies depth_after(
            w,
            i,
        ) > 0 by {
            lemma_depth_after_app(a, b, i);
            if i < a.len() {
                assert(w[i] == a[i]);
            } else {
                assert(w[i] == b[i - a.len()]);
            }
        }
    }
}

/// Serializes a task list into the write events that `write_events_of`
/// states, exactly.
pub fn encode_events(tasks: &Vec<Task>) -> (events: Vec<WriteEvent>)
    ensures
        events.deep_view() == write_events_of(tasks.deep_view()),
{
    let mut events: Vec<WriteEvent> = Vec::new();
    let mut i: usize = 0;
    proof {
        assert(tasks.deep_view().take(0) =~= Seq::<TaskView>::empty());
        assert(events.deep_view() =~= Seq::<WriteEventV>::empty());
    }
    while i < tasks.len()
        invariant
            i <= tasks.len(),
            events.deep_view() == write_events_of(tasks.deep_view().take(i as int)),
        decreases tasks.len() - i,
    {
        let ghost pre = events.deep_view();
        let task = &tasks[i];
        events.push(WriteEvent::Start("Task".to_owned()));
        events.push(WriteEvent::Start("Description".to_owned()));
        events.push(WriteEvent::Text(task.description.clone()));
        events.push(WriteEvent::End);
        events.push(WriteEvent::Start("Due_Date".to_owned()));
        events.push(WriteEvent::Text(task.due_date.clone()));
        events.push(WriteEvent::End);
        events.push(WriteEvent::Start("Important".to_owned()));
        events.push(WriteEvent::Text(task.important.clone()));
        events.push(WriteEvent::End);
        events.push(WriteEvent::End);
        proof {
            let ts = tasks.deep_view();
            assert(ts[i as int] == tasks@[i as int].deep_view());
            assert(events.deep_view() =~= pre + task_write_events(ts[i as int]));
            assert(ts.take(i + 1).drop_last() =~= ts.take(i as int));
            assert(ts.take(i + 1).last() == ts[i as int]);
        }
        i = i + 1;
    }
    proof {
        assert(tasks.deep_view().take(tasks.len() as int) =~= tasks.deep_view());
    }
    events
}

/// The bytes the document writer produces for a stream of write events,
/// preceded by the document declaration: pretty-printed with two-space
/// indentation, markup-reserved characters in text escaped. The bytes depend
/// on the events alone.
pub uninterp spec fn document_of(events: Seq<WriteEventV>) -> Seq<u8>;

/// Relies on xml's `EventWriter` over an in-memory buffer: writing the
/// document declaration followed by a well-nested event stream cannot fail,
/// and the bytes produced depend on the events alone.
#[verifier::external_body]
fn emit_document(events: &Vec<WriteEvent>) -> (r: Vec<u8>)
    requires
        well_nested(events.deep_view()),
    ensures
        r@ == document_of(events.deep_view()),
{
    let mut buffer: Vec<u8> = Vec::new();
    let mut writer = xml::writer::EmitterConfig::new().perform_indent(true).create_writer(&mut buffer);
    let declaration = xml::writer::XmlEvent::StartDocument { version: xml::common::XmlVersion::Version10, encoding: Some("UTF-8"), standalone: None };
    writer.write(declaration).expect("writing the declaration to a buffer");
    for event in events.iter() {
        writer.write(match event {
            WriteEvent::Start(name) => xml::writer::XmlEvent::start_element(name.as_str()).into(),
            WriteEvent::Text(text) => xml::writer::XmlEvent::characters(text.as_str()),
            WriteEvent::End => xml::writer::XmlEvent::end_element().into(),
        }).expect("writing a well-nested event to a buffer");
    }
    drop(writer);
    buffer
}

/// Encodes a task list as the bytes of its XML document: a version/encoding
/// declaration followed by one `Task` element per record, in list order, each
/// holding the three field elements in fixed order with the field values
/// verbatim.
pub fn write(tasks: &Vec<Task>) -> (r: Vec<u8>)
    ensures
        r@ == document_of(write_events_of(tasks.deep_view())),
{
    let events = encode_events(tasks);
    proof {
        lemma_write_events_well_nested(tasks.deep_view());
    }
    emit_document(&events)
}

} // verus!
