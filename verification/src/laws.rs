//! Laws of the serialization pass, stated and proved over the wire
//! model: nesting balance, identifier stability, table-state scoping,
//! and single consumption of the modified offset.

use vstd::prelude::*;

use crate::events::{Event, Span, TableState, Tag};
use crate::tokens::{ParseResult, TextTokenizer};
use crate::wire::{
    children_close, children_open, end_tag_out, first_idx, id_assigned, id_of, ids_after, run,
    tag_out, SerState,
};

verus! {

/// How many children arrays the rendering of one event opens: one per
/// structural start (`,"c":[` in its `start_tag` rendering), a second
/// for the implicit row a table head opens and for the inner node of a
/// code block, and one for the synthetic body row-group a table head's
/// end leaves behind. Text, markers and leaf nodes open none that they
/// do not close themselves.
pub open spec fn opens_of(e: Event) -> int {
    match e {
        Event::Start(Tag::TableHead) => 2,
        Event::Start(Tag::CodeBlock { .. }) => 2,
        Event::Start(_) => 1,
        Event::End(Tag::TableHead) => 1,
        _ => 0,
    }
}

/// How many children arrays the rendering of one event closes (`]}` in
/// its `end_tag` rendering): two for a table, a code block, or a table
/// head's implicit row and itself, one for every other end.
pub open spec fn closes_of(e: Event) -> int {
    match e {
        Event::End(Tag::Table { .. }) => 2,
        Event::End(Tag::CodeBlock { .. }) => 2,
        Event::End(Tag::TableHead) => 2,
        Event::End(_) => 1,
        _ => 0,
    }
}

/// The nesting classes whose start and end events open and close
/// children arrays asymmetrically.
pub enum TagClass {
    TableClass,
    HeadClass,
    CodeClass,
    PlainClass,
}

/// The class of a tag.
pub open spec fn tag_class(t: Tag) -> TagClass {
    match t {
        Tag::Table { .. } => TagClass::TableClass,
        Tag::TableHead => TagClass::HeadClass,
        Tag::CodeBlock { .. } => TagClass::CodeClass,
        _ => TagClass::PlainClass,
    }
}

/// The number of start events of a class in a stream.
pub open spec fn cnt_start(events: Seq<Event>, k: TagClass) -> int
    decreases events.len(),
{
    if events.len() == 0 {
        0
    } else {
        cnt_start(events.drop_last(), k) + (match events.last() {
            Event::Start(t) => {
                if tag_class(t) == k {
                    1int
                } else {
                    0int
                }
            },
            _ => 0int,
        })
    }
}

/// The number of end events of a class in a stream.
pub open spec fn cnt_end(events: Seq<Event>, k: TagClass) -> int
    decreases events.len(),
{
    if events.len() == 0 {
        0
    } else {
        cnt_end(events.drop_last(), k) + (match events.last() {
            Event::End(t) => {
                if tag_class(t) == k {
                    1int
                } else {
                    0int
                }
            },
            _ => 0int,
        })
    }
}

/// The net number of children arrays a stream leaves open.
pub open spec fn stream_delta(events: Seq<Event>) -> int
    decreases events.len(),
{
    if events.len() == 0 {
        0
    } else {
        stream_delta(events.drop_last()) + opens_of(events.last()) - closes_of(events.last())
    }
}

/// The net opening of a stream, counted class by class: plain starts
/// and table starts open one array, head and code starts open two; ends
/// close them as `closes_of` says, a head's end giving one array back
/// for the synthetic body row-group.
pub proof fn lemma_stream_delta_counts(events: Seq<Event>)
    ensures
        stream_delta(events) == cnt_start(events, TagClass::PlainClass) - cnt_end(
            events,
            TagClass::PlainClass,
        ) + cnt_start(events, TagClass::TableClass) - 2 * cnt_end(events, TagClass::TableClass)
            + 2 * cnt_start(events, TagClass::HeadClass) - cnt_end(events, TagClass::HeadClass)
            + 2 * cnt_start(events, TagClass::CodeClass) - 2 * cnt_end(
            events,
            TagClass::CodeClass,
        ),
    decreases events.len(),
{
    if events.len() == 0 {
    } else {
        lemma_stream_delta_counts(events.drop_last());
    }
}

/// Every opened children array is closed exactly once: a stream in
/// which every start event is matched by an end event of its class, and
/// every table carries exactly one head row-group, leaves no children
/// array open. The head class appearing as often as the table class is
/// what pays for the synthetic body row-group its end opens.
pub proof fn lemma_children_balanced(events: Seq<Event>)
    requires
        cnt_start(events, TagClass::PlainClass) == cnt_end(events, TagClass::PlainClass),
        cnt_start(events, TagClass::TableClass) == cnt_end(events, TagClass::TableClass),
        cnt_start(events, TagClass::HeadClass) == cnt_end(events, TagClass::HeadClass),
        cnt_start(events, TagClass::CodeClass) == cnt_end(events, TagClass::CodeClass),
        cnt_start(events, TagClass::HeadClass) == cnt_start(events, TagClass::TableClass),
    ensures
        stream_delta(events) == 0,
{
    lemma_stream_delta_counts(events);
}

/// A table head's end closes the implicit row and the head row-group,
/// then opens the synthetic body row-group that holds every later row.
pub proof fn lemma_table_head_end_reopens_body()
    ensures
        end_tag_out(Tag::TableHead) == children_close() + children_close() + tag_out(
            false,
            "tbody"@,
        ) + children_open(),
{
}

/// Resolving a name a second time gives the same identifier, whether or
/// not the first resolution assigned it.
pub proof fn lemma_same_name_same_id(ids: Seq<Seq<u8>>, name: Seq<u8>)
    ensures
        id_of(ids_after(ids, name), name) == id_of(ids, name),
{
    if id_assigned(ids, name) {
    } else {
        let n = ids.len() as int;
        lemma_first_idx_absent_push(ids, name);
        assert(ids.push(name)[n] == name);
        assert(id_assigned(ids.push(name), name));
    }
}

/// Scanning for a name that is absent from `ids` finds it right where
/// it was appended.
proof fn lemma_first_idx_absent_push(ids: Seq<Seq<u8>>, name: Seq<u8>)
    requires
        !id_assigned(ids, name),
    ensures
        first_idx(ids.push(name), name) == ids.len(),
    decreases ids.len(),
{
    if ids.len() == 0 {
        assert(ids.push(name)[0] == name);
    } else {
        assert(ids[0] != name);
        assert(ids.push(name)[0] == ids[0]);
        assert forall|i: int| 0 <= i < ids.skip(1).len() implies ids.skip(1)[i] != name by {
            assert(ids.skip(1)[i] == ids[i + 1]);
        }
        lemma_first_idx_absent_push(ids.skip(1), name);
        assert(ids.push(name).skip(1) =~= ids.skip(1).push(name));
    }
}

/// Appending an entry does not move the first occurrence of a name that
/// is already present.
proof fn lemma_first_idx_push_keeps(ids: Seq<Seq<u8>>, name: Seq<u8>, other: Seq<u8>)
    requires
        id_assigned(ids, name),
    ensures
        first_idx(ids.push(other), name) == first_idx(ids, name),
    decreases ids.len(),
{
    if ids[0] == name {
        assert(ids.push(other)[0] == name);
    } else {
        assert(ids.push(other)[0] == ids[0]);
        let w = choose|i: int| 0 <= i < ids.len() && ids[i] == name;
        assert(ids.skip(1)[w - 1] == name);
        assert(id_assigned(ids.skip(1), name));
        lemma_first_idx_push_keeps(ids.skip(1), name, other);
        assert(ids.push(other).skip(1) =~= ids.skip(1).push(other));
    }
}

/// An identifier, once assigned, survives every later resolution: ids
/// are stable across one whole pass, in first-occurrence order from 1.
pub proof fn lemma_id_stable(ids: Seq<Seq<u8>>, name: Seq<u8>, other: Seq<u8>)
    requires
        id_assigned(ids, name),
    ensures
        id_assigned(ids_after(ids, other), name),
        id_of(ids_after(ids, other), name) == id_of(ids, name),
{
    if id_assigned(ids, other) {
    } else {
        let w = choose|i: int| 0 <= i < ids.len() && ids[i] == name;
        assert(ids.push(other)[w] == name);
        lemma_first_idx_push_keeps(ids, name, other);
    }
}

/// A name never seen before is assigned the next identifier in
/// sequence: one more than the number of names assigned so far.
pub proof fn lemma_fresh_id_sequential(ids: Seq<Seq<u8>>, name: Seq<u8>)
    requires
        !id_assigned(ids, name),
    ensures
        id_of(ids, name) == ids.len() + 1,
{
}

/// Which row-group flag a stream of events leaves behind: the last
/// table-head or table-row start decides, and nothing else touches it.
pub open spec fn table_flag_after(events: Seq<(Event, Span)>, t0: TableState) -> TableState
    decreases events.len(),
{
    if events.len() == 0 {
        t0
    } else {
        match events.last().0 {
            Event::Start(Tag::TableHead) => TableState::Head,
            Event::Start(Tag::TableRow) => TableState::Row,
            _ => table_flag_after(events.drop_last(), t0),
        }
    }
}

/// Cells render as header cells inside a head row-group and as data
/// cells after: the table flag a pass carries is decided by the last
/// table-head or table-row start alone, whatever rows, columns or other
/// events surround it, so every cell between a head start and the next
/// row start becomes `th`, and every later one `td`.
pub proof fn lemma_table_state_scoped<R: ParseResult, T: TextTokenizer>(
    st: SerState<R, T>,
    events: Seq<(Event, Span)>,
)
    ensures
        run(st, events).table == table_flag_after(events, st.table),
    decreases events.len(),
{
    if events.len() == 0 {
    } else {
        lemma_table_state_scoped(st, events.drop_last());
    }
}

/// The modified offset is consumed at most once in a pass: once it is
/// gone, no later event sees or revives it.
pub proof fn lemma_modified_consumed<R: ParseResult, T: TextTokenizer>(
    st: SerState<R, T>,
    events: Seq<(Event, Span)>,
)
    requires
        st.modified.is_none(),
    ensures
        run(st, events).modified.is_none(),
    decreases events.len(),
{
    if events.len() == 0 {
    } else {
        lemma_modified_consumed(st, events.drop_last());
    }
}

} // verus!
