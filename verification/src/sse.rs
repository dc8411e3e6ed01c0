//! Server-Sent Events: the framing of an event stream, on bytes.
//!
//! A stream is a list of lines. A blank line ends an event; the payload of an event is made of
//! its `data:` lines. Lines of any other kind carry no payload.

use vstd::prelude::*;
use vstd::slice::slice_subrange;

verus! {

/// The byte that ends a line.
pub const NEWLINE: u8 = 10;

/// The byte that may stand before the end of a line and is then part of it.
pub const RETURN: u8 = 13;

/// The byte that may stand between `data:` and the value.
pub const SPACE: u8 = 32;

// ---------------------------------------------------------------------------------------------
// What a stream says
// ---------------------------------------------------------------------------------------------

/// The bytes of `data:`.
pub open spec fn data_mark() -> Seq<u8> {
    seq![100u8, 97, 116, 97, 58]
}

/// The bytes of `event:`.
pub open spec fn event_mark() -> Seq<u8> {
    seq![101u8, 118, 101, 110, 116, 58]
}

/// `bytes` starts with `mark`.
pub open spec fn begins(bytes: Seq<u8>, mark: Seq<u8>) -> bool {
    mark.len() <= bytes.len() && bytes.take(mark.len() as int) == mark
}

/// Where the first line of `bytes` ends: the index of its newline, or the length where there is
/// none.
pub open spec fn line_end(bytes: Seq<u8>) -> int
    decreases bytes.len(),
{
    if bytes.len() == 0 || bytes[0] == NEWLINE {
        0
    } else {
        1 + line_end(bytes.drop_first())
    }
}

/// A line without the carriage return at its end.
pub open spec fn without_return(line: Seq<u8>) -> Seq<u8> {
    if line.len() > 0 && line.last() == RETURN {
        line.drop_last()
    } else {
        line
    }
}

/// The lines of `bytes`, without their ends. What follows the last newline is a line only where
/// it is not empty, and keeps a carriage return at its end.
pub open spec fn lines_of(bytes: Seq<u8>) -> Seq<Seq<u8>>
    decreases bytes.len(),
    via lines_of_ends
{
    let end = line_end(bytes);
    if bytes.len() == 0 {
        Seq::empty()
    } else if end >= bytes.len() {
        seq![bytes]
    } else {
        seq![without_return(bytes.take(end))] + lines_of(bytes.skip(end + 1))
    }
}

#[via_fn]
proof fn lines_of_ends(bytes: Seq<u8>) {
    lemma_line_end(bytes);
}

/// Some line starts with `data:` or `event:`.
pub open spec fn is_framed(lines: Seq<Seq<u8>>) -> bool {
    exists|i: int|
        0 <= i < lines.len() && (begins(#[trigger] lines[i], data_mark()) || begins(
            lines[i],
            event_mark(),
        ))
}

/// The value of a `data:` line: what follows the mark, without one space before it.
pub open spec fn data_value(line: Seq<u8>) -> Seq<u8> {
    let rest = line.skip(5);
    if rest.len() > 0 && rest[0] == SPACE {
        rest.skip(1)
    } else {
        rest
    }
}

/// The values of the `data:` lines, in order.
pub open spec fn data_values(lines: Seq<Seq<u8>>) -> Seq<Seq<u8>>
    decreases lines.len(),
{
    if lines.len() == 0 {
        Seq::empty()
    } else if begins(lines.last(), data_mark()) {
        data_values(lines.drop_last()).push(data_value(lines.last()))
    } else {
        data_values(lines.drop_last())
    }
}

/// The values with a newline between each two.
pub open spec fn joined(values: Seq<Seq<u8>>) -> Seq<u8>
    decreases values.len(),
{
    if values.len() == 0 {
        Seq::empty()
    } else if values.len() == 1 {
        values[0]
    } else {
        joined(values.drop_last()).push(NEWLINE) + values.last()
    }
}

/// How many lines come before the first blank one.
pub open spec fn until_blank(lines: Seq<Seq<u8>>) -> int
    decreases lines.len(),
{
    if lines.len() == 0 || lines[0].len() == 0 {
        0
    } else {
        1 + until_blank(lines.drop_first())
    }
}

/// What one event carries: its values, joined; nothing where it has no `data:` line.
pub open spec fn payload_of(lines: Seq<Seq<u8>>) -> Seq<Seq<u8>> {
    if data_values(lines).len() == 0 {
        Seq::empty()
    } else {
        seq![joined(data_values(lines))]
    }
}

/// The payloads of the events of a stream, in order. The lines after the last blank one are an
/// event too.
pub open spec fn events_of(lines: Seq<Seq<u8>>) -> Seq<Seq<u8>>
    decreases lines.len(),
    via events_of_ends
{
    let n = until_blank(lines);
    if n >= lines.len() {
        payload_of(lines)
    } else {
        payload_of(lines.take(n)) + events_of(lines.skip(n + 1))
    }
}

#[via_fn]
proof fn events_of_ends(lines: Seq<Seq<u8>>) {
    lemma_until_blank(lines);
}

/// The payloads of the events in the bytes of a stream.
pub open spec fn stream_events(bytes: Seq<u8>) -> Seq<Seq<u8>> {
    events_of(lines_of(bytes))
}

// ---------------------------------------------------------------------------------------------
// Lemmas
// ---------------------------------------------------------------------------------------------

proof fn lemma_line_end(bytes: Seq<u8>)
    ensures
        0 <= line_end(bytes) <= bytes.len(),
        line_end(bytes) < bytes.len() ==> bytes[line_end(bytes)] == NEWLINE,
        forall|i: int| 0 <= i < line_end(bytes) ==> #[trigger] bytes[i] != NEWLINE,
    decreases bytes.len(),
{
    if bytes.len() > 0 && bytes[0] != NEWLINE {
        let rest = bytes.drop_first();
        lemma_line_end(rest);
        assert forall|i: int| 0 <= i < line_end(bytes) implies #[trigger] bytes[i] != NEWLINE by {
            if i > 0 {
                assert(bytes[i] == rest[i - 1]);
            }
        }
    }
}

/// The first newline, or the end, is where the first line ends.
proof fn lemma_line_end_at(bytes: Seq<u8>, n: int)
    requires
        0 <= n <= bytes.len(),
        n < bytes.len() ==> bytes[n] == NEWLINE,
        forall|i: int| 0 <= i < n ==> #[trigger] bytes[i] != NEWLINE,
    ensures
        line_end(bytes) == n,
{
    lemma_line_end(bytes);
    let end = line_end(bytes);
    if end < n {
        assert(bytes[end] != NEWLINE);
    } else if n < end {
        assert(bytes[n] != NEWLINE);
    }
}

proof fn lemma_until_blank(lines: Seq<Seq<u8>>)
    ensures
        0 <= until_blank(lines) <= lines.len(),
        until_blank(lines) < lines.len() ==> lines[until_blank(lines)].len() == 0,
        forall|i: int| 0 <= i < until_blank(lines) ==> (#[trigger] lines[i]).len() > 0,
    decreases lines.len(),
{
    if lines.len() > 0 && lines[0].len() > 0 {
        let rest = lines.drop_first();
        lemma_until_blank(rest);
        assert forall|i: int| 0 <= i < until_blank(lines) implies (#[trigger] lines[i]).len()
            > 0 by {
            if i > 0 {
                assert(lines[i] == rest[i - 1]);
            }
        }
    }
}

/// The first blank line, or the end, is where the first event ends.
proof fn lemma_until_blank_at(lines: Seq<Seq<u8>>, n: int)
    requires
        0 <= n <= lines.len(),
        n < lines.len() ==> lines[n].len() == 0,
        forall|i: int| 0 <= i < n ==> (#[trigger] lines[i]).len() > 0,
    ensures
        until_blank(lines) == n,
{
    lemma_until_blank(lines);
    let end = until_blank(lines);
    if end < n {
        assert(lines[end].len() > 0);
    } else if n < end {
        assert(lines[n].len() > 0);
    }
}

/// No byte ends a line, and none at the end would be taken for part of the end.
pub open spec fn is_one_line(bytes: Seq<u8>) -> bool {
    (forall|i: int| 0 <= i < bytes.len() ==> #[trigger] bytes[i] != NEWLINE) && (bytes.len() > 0
        ==> bytes.last() != RETURN)
}

/// An event as servers frame it: a head line, one `data:` line and a blank line.
pub open spec fn frame(head: Seq<u8>, payload: Seq<u8>) -> Seq<u8> {
    head.push(NEWLINE) + (data_mark().push(SPACE) + payload).push(NEWLINE).push(NEWLINE)
}

proof fn lemma_first_line(line: Seq<u8>, rest: Seq<u8>)
    requires
        is_one_line(line),
    ensures
        lines_of(line.push(NEWLINE) + rest) == seq![line] + lines_of(rest),
{
    let bytes = line.push(NEWLINE) + rest;
    assert forall|i: int| 0 <= i < line.len() implies #[trigger] bytes[i] != NEWLINE by {
        assert(bytes[i] == line[i]);
    }
    lemma_line_end_at(bytes, line.len() as int);
    assert(bytes.take(line.len() as int) =~= line);
    assert(bytes.skip(line.len() as int + 1) =~= rest);
}

/// A framed event at the start of a stream is read as its payload, and what follows it is read as
/// if it stood alone. The head line is any line that is not blank and carries no data.
pub proof fn law_frame_is_read(head: Seq<u8>, payload: Seq<u8>, rest: Seq<u8>)
    requires
        is_one_line(head),
        head.len() > 0,
        !begins(head, data_mark()),
        is_one_line(payload),
    ensures
        stream_events(frame(head, payload) + rest) == seq![payload] + stream_events(rest),
        is_framed(lines_of(frame(head, payload) + rest)),
{
    let data = data_mark().push(SPACE) + payload;
    let blank = Seq::<u8>::empty();
    assert forall|i: int| 0 <= i < data.len() implies #[trigger] data[i] != NEWLINE by {
        if i >= 6 {
            assert(data[i] == payload[i - 6]);
        }
    }
    assert(is_one_line(data)) by {
        if payload.len() > 0 {
            assert(data.last() == payload.last());
        } else {
            assert(data.last() == SPACE);
        }
    }
    let all = frame(head, payload) + rest;
    assert(all =~= head.push(NEWLINE) + (data.push(NEWLINE) + (blank.push(NEWLINE) + rest)));
    lemma_first_line(head, data.push(NEWLINE) + (blank.push(NEWLINE) + rest));
    lemma_first_line(data, blank.push(NEWLINE) + rest);
    lemma_first_line(blank, rest);
    let others = lines_of(rest);
    let list = lines_of(all);
    assert(list =~= seq![head, data, blank] + others);
    assert(list[0] == head && list[1] == data && list[2] == blank);
    lemma_until_blank_at(list, 2);
    let group = list.take(2);
    assert(group.drop_last() =~= seq![head]);
    assert(group.drop_last().drop_last() =~= Seq::empty());
    assert(data.take(5) =~= data_mark());
    assert(group.last() == data);
    assert(data.skip(5).skip(1) =~= payload);
    assert(data.skip(5)[0] == SPACE);
    assert(data_values(group) =~= seq![payload]) by {
        reveal_with_fuel(data_values, 3);
    }
    assert(payload_of(group) =~= seq![payload]);
    assert(list.skip(3) =~= others);
    assert(begins(list[1], data_mark()));
}

/// A stream of events, each framed with the same head line.
pub open spec fn frames(head: Seq<u8>, payloads: Seq<Seq<u8>>) -> Seq<u8>
    decreases payloads.len(),
{
    if payloads.len() == 0 {
        Seq::empty()
    } else {
        frame(head, payloads[0]) + frames(head, payloads.drop_first())
    }
}

/// A stream of framed events is read as their payloads, in order.
pub proof fn law_frames_are_read(head: Seq<u8>, payloads: Seq<Seq<u8>>)
    requires
        is_one_line(head),
        head.len() > 0,
        !begins(head, data_mark()),
        forall|i: int| 0 <= i < payloads.len() ==> is_one_line(#[trigger] payloads[i]),
    ensures
        stream_events(frames(head, payloads)) == payloads,
        payloads.len() > 0 ==> is_framed(lines_of(frames(head, payloads))),
    decreases payloads.len(),
{
    if payloads.len() == 0 {
        assert(lines_of(Seq::<u8>::empty()) =~= Seq::empty());
        assert(stream_events(frames(head, payloads)) =~= payloads);
    } else {
        let rest = payloads.drop_first();
        assert forall|i: int| 0 <= i < rest.len() implies is_one_line(#[trigger] rest[i]) by {
            assert(rest[i] == payloads[i + 1]);
        }
        law_frames_are_read(head, rest);
        law_frame_is_read(head, payloads[0], frames(head, rest));
        assert(seq![payloads[0]] + rest =~= payloads);
    }
}

// ---------------------------------------------------------------------------------------------
// Reading a stream
// ---------------------------------------------------------------------------------------------

/// What a list of byte strings stands for.
pub open spec fn byte_strings(list: Seq<Vec<u8>>) -> Seq<Seq<u8>> {
    list.map_values(|bytes: Vec<u8>| bytes@)
}

/// A copy of the bytes from index `from` up to index `to`.
fn copied(bytes: &[u8], from: usize, to: usize) -> (part: Vec<u8>)
    requires
        from <= to <= bytes@.len(),
    ensures
        part@ == bytes@.subrange(from as int, to as int),
{
    vstd::slice::slice_to_vec(slice_subrange(bytes, from, to))
}

/// Splits `bytes` into lines.
pub fn lines(bytes: &[u8]) -> (list: Vec<Vec<u8>>)
    ensures
        byte_strings(list@) == lines_of(bytes@),
{
    let mut list: Vec<Vec<u8>> = Vec::new();
    let mut from: usize = 0;
    let mut i: usize = 0;
    assert(bytes@.skip(0) =~= bytes@);
    assert(byte_strings(list@) + lines_of(bytes@) =~= lines_of(bytes@));
    while i < bytes.len()
        invariant
            from <= i <= bytes@.len(),
            lines_of(bytes@) == byte_strings(list@) + lines_of(bytes@.skip(from as int)),
            forall|j: int| from <= j < i ==> #[trigger] bytes@[j] != NEWLINE,
        decreases bytes@.len() - i,
    {
        if bytes[i] == NEWLINE {
            let ghost before = list@;
            let ghost rest = bytes@.skip(from as int);
            let to: usize = if i > from && bytes[i - 1] == RETURN {
                i - 1
            } else {
                i
            };
            let line: Vec<u8> = copied(bytes, from, to);
            proof {
                lemma_line_end_at(rest, i - from);
                assert(rest.skip(i - from + 1) =~= bytes@.skip(i + 1));
                assert(line@ =~= without_return(rest.take(i - from)));
            }
            list.push(line);
            proof {
                assert(byte_strings(list@) =~= byte_strings(before).push(line@));
                assert(byte_strings(before) + (seq![line@] + lines_of(bytes@.skip(i + 1)))
                    =~= byte_strings(list@) + lines_of(bytes@.skip(i + 1)));
            }
            from = i + 1;
        }
        i += 1;
    }
    let ghost rest = bytes@.skip(from as int);
    proof {
        lemma_line_end_at(rest, rest.len() as int);
    }
    if from < bytes.len() {
        let ghost before = list@;
        list.push(copied(bytes, from, bytes.len()));
        proof {
            assert(list@.last()@ =~= rest);
            assert(byte_strings(list@) =~= byte_strings(before) + seq![rest]);
        }
    } else {
        assert(byte_strings(list@) + Seq::<Seq<u8>>::empty() =~= byte_strings(list@));
    }
    list
}

/// Whether a line starts with `data:`.
fn is_data_line(line: &Vec<u8>) -> (data: bool)
    ensures
        data == begins(line@, data_mark()),
{
    let data: bool = line.len() >= 5 && line[0] == 100 && line[1] == 97 && line[2] == 116 && line[3]
        == 97 && line[4] == 58;
    proof {
        if data {
            assert(line@.take(5) =~= data_mark());
        } else if line@.len() >= 5 {
            assert forall|i: int| 0 <= i < 5 implies line@.take(5)[i] == #[trigger] line@[i] by {}
            assert(line@.take(5) != data_mark()) by {
                if line@.take(5) == data_mark() {
                    assert(line@[0] == data_mark()[0] && line@[1] == data_mark()[1] && line@[2]
                        == data_mark()[2] && line@[3] == data_mark()[3] && line@[4]
                        == data_mark()[4]);
                }
            }
        }
    }
    data
}

/// Whether a line starts with `event:`.
fn is_event_line(line: &Vec<u8>) -> (event: bool)
    ensures
        event == begins(line@, event_mark()),
{
    let event: bool = line.len() >= 6 && line[0] == 101 && line[1] == 118 && line[2] == 101
        && line[3] == 110 && line[4] == 116 && line[5] == 58;
    proof {
        if event {
            assert(line@.take(6) =~= event_mark());
        } else if line@.len() >= 6 {
            assert forall|i: int| 0 <= i < 6 implies line@.take(6)[i] == #[trigger] line@[i] by {}
            assert(line@.take(6) != event_mark()) by {
                if line@.take(6) == event_mark() {
                    assert(line@[0] == event_mark()[0] && line@[1] == event_mark()[1] && line@[2]
                        == event_mark()[2] && line@[3] == event_mark()[3] && line@[4]
                        == event_mark()[4] && line@[5] == event_mark()[5]);
                }
            }
        }
    }
    event
}

/// Whether some line is a `data:` or an `event:` line.
pub fn looks_like_sse(list: &Vec<Vec<u8>>) -> (framed: bool)
    ensures
        framed == is_framed(byte_strings(list@)),
{
    let ghost all = byte_strings(list@);
    let mut i: usize = 0;
    while i < list.len()
        invariant
            i <= list@.len(),
            all == byte_strings(list@),
            forall|j: int|
                0 <= j < i ==> !begins(#[trigger] all[j], data_mark()) && !begins(
                    all[j],
                    event_mark(),
                ),
        decreases list@.len() - i,
    {
        assert(all[i as int] == list@[i as int]@);
        if is_data_line(&list[i]) || is_event_line(&list[i]) {
            return true;
        }
        i += 1;
    }
    false
}

/// The value of a `data:` line.
fn value_of(line: &Vec<u8>) -> (value: Vec<u8>)
    requires
        begins(line@, data_mark()),
    ensures
        value@ == data_value(line@),
{
    let from: usize = if line.len() > 5 && line[5] == SPACE {
        6
    } else {
        5
    };
    let value: Vec<u8> = copied(line.as_slice(), from, line.len());
    assert(value@ =~= data_value(line@));
    value
}

/// Adds the value of one more `data:` line to what an event carries so far.
fn add_value(current: Option<Vec<u8>>, value: Vec<u8>) -> (data: Vec<u8>)
    ensures
        data@ == match current {
            Some(so_far) => so_far@.push(NEWLINE) + value@,
            None => value@,
        },
{
    match current {
        Some(mut data) => {
            let mut value: Vec<u8> = value;
            data.push(NEWLINE);
            data.append(&mut value);
            data
        },
        None => value,
    }
}

/// Ends an event: what it carries becomes a payload.
fn end_event(events: &mut Vec<Vec<u8>>, current: Option<Vec<u8>>)
    ensures
        byte_strings(final(events)@) == byte_strings(old(events)@) + match current {
            Some(data) => seq![data@],
            None => Seq::empty(),
        },
{
    match current {
        Some(data) => {
            events.push(data);
            assert(byte_strings(events@) =~= byte_strings(old(events)@) + seq![data@]);
        },
        None => {
            assert(byte_strings(events@) =~= byte_strings(old(events)@) + Seq::empty());
        },
    }
}

/// What `current` holds is the payload of an event made of `lines`.
spec fn carries(current: Option<Vec<u8>>, lines: Seq<Seq<u8>>) -> bool {
    match current {
        Some(data) => payload_of(lines) == seq![data@],
        None => payload_of(lines) == Seq::<Seq<u8>>::empty(),
    }
}

/// A `data:` line that follows adds its value to the payload; any other line adds nothing.
proof fn lemma_one_more_line(lines: Seq<Seq<u8>>, line: Seq<u8>)
    ensures
        begins(line, data_mark()) ==> payload_of(lines.push(line)) == seq![
            if payload_of(lines).len() == 0 {
                data_value(line)
            } else {
                payload_of(lines)[0].push(NEWLINE) + data_value(line)
            },
        ],
        !begins(line, data_mark()) ==> payload_of(lines.push(line)) == payload_of(lines),
{
    let more = lines.push(line);
    assert(more.drop_last() =~= lines);
    if begins(line, data_mark()) {
        let values = data_values(lines);
        let all = values.push(data_value(line));
        assert(all.drop_last() =~= values);
        assert(all.last() == data_value(line));
    }
}

/// The payloads of the events of a stream, given as its lines.
pub fn events(list: &Vec<Vec<u8>>) -> (events: Vec<Vec<u8>>)
    ensures
        byte_strings(events@) == events_of(byte_strings(list@)),
{
    let ghost all = byte_strings(list@);
    let ghost mut from: int = 0;
    let mut events: Vec<Vec<u8>> = Vec::new();
    let mut current: Option<Vec<u8>> = None;
    let mut i: usize = 0;
    proof {
        assert(all.skip(0) =~= all);
        assert(all.subrange(0, 0) =~= Seq::empty());
        assert(byte_strings(events@) + events_of(all) =~= events_of(all));
    }
    while i < list.len()
        invariant
            all == byte_strings(list@),
            0 <= from <= i <= list@.len(),
            events_of(all) == byte_strings(events@) + events_of(all.skip(from)),
            forall|j: int| from <= j < i ==> (#[trigger] all[j]).len() > 0,
            carries(current, all.subrange(from, i as int)),
        decreases list@.len() - i,
    {
        let ghost group = all.subrange(from, i as int);
        assert(all[i as int] == list@[i as int]@);
        if list[i].len() == 0 {
            let ghost before = byte_strings(events@);
            proof {
                let rest = all.skip(from);
                assert forall|j: int| 0 <= j < i - from implies (#[trigger] rest[j]).len()
                    > 0 by {
                    assert(rest[j] == all[from + j]);
                }
                lemma_until_blank_at(rest, i - from);
                assert(rest.take(i - from) =~= group);
                assert(rest.skip(i - from + 1) =~= all.skip(i + 1));
                assert(before + (payload_of(group) + events_of(all.skip(i + 1))) =~= (before
                    + payload_of(group)) + events_of(all.skip(i + 1)));
            }
            end_event(&mut events, current);
            current = None;
            proof {
                from = i + 1;
                assert(all.subrange(from, from) =~= Seq::empty());
            }
        } else {
            proof {
                lemma_one_more_line(group, all[i as int]);
                assert(all.subrange(from, i + 1) =~= group.push(all[i as int]));
            }
            if is_data_line(&list[i]) {
                current = Some(add_value(current, value_of(&list[i])));
            }
        }
        i += 1;
    }
    proof {
        let rest = all.skip(from);
        assert forall|j: int| 0 <= j < rest.len() implies (#[trigger] rest[j]).len() > 0 by {
            assert(rest[j] == all[from + j]);
        }
        lemma_until_blank_at(rest, rest.len() as int);
        assert(rest =~= all.subrange(from, i as int));
    }
    end_event(&mut events, current);
    events
}

// ---------------------------------------------------------------------------------------------
// Laws
// ---------------------------------------------------------------------------------------------

/// A line ends at the first newline, byte ten, and a carriage return, byte thirteen, right before
/// it belongs to the end. What follows the last newline is a line where it is not empty, and keeps
/// every byte.
pub proof fn law_lines(line: Seq<u8>, rest: Seq<u8>)
    requires
        forall|i: int| 0 <= i < line.len() ==> #[trigger] line[i] != 10,
    ensures
        lines_of(line.push(10) + rest) == seq![
            if line.len() > 0 && line.last() == 13 {
                line.drop_last()
            } else {
                line
            },
        ] + lines_of(rest),
        lines_of(line) == if line.len() > 0 {
            seq![line]
        } else {
            Seq::empty()
        },
{
    let bytes = line.push(10) + rest;
    assert forall|i: int| 0 <= i < line.len() implies #[trigger] bytes[i] != NEWLINE by {
        assert(bytes[i] == line[i]);
    }
    lemma_line_end_at(bytes, line.len() as int);
    lemma_line_end_at(line, line.len() as int);
    assert(bytes.take(line.len() as int) =~= line);
    assert(bytes.skip(line.len() as int + 1) =~= rest);
}

/// A body is taken for an event stream exactly where one of its lines starts with the bytes of
/// `data:` or of `event:`.
pub proof fn law_framing(lines: Seq<Seq<u8>>)
    ensures
        is_framed(lines) <==> exists|i: int|
            0 <= i < lines.len() && {
                let line = #[trigger] lines[i];
                ||| line.len() >= 5 && line[0] == 100 && line[1] == 97 && line[2] == 116 && line[3]
                    == 97 && line[4] == 58
                ||| line.len() >= 6 && line[0] == 101 && line[1] == 118 && line[2] == 101 && line[3]
                    == 110 && line[4] == 116 && line[5] == 58
            },
{
    assert forall|i: int| 0 <= i < lines.len() implies (begins(#[trigger] lines[i], data_mark())
        || begins(lines[i], event_mark())) == {
        let line = lines[i];
        ||| line.len() >= 5 && line[0] == 100 && line[1] == 97 && line[2] == 116 && line[3] == 97
            && line[4] == 58
        ||| line.len() >= 6 && line[0] == 101 && line[1] == 118 && line[2] == 101 && line[3] == 110
            && line[4] == 116 && line[5] == 58
    } by {
        lemma_marks(lines[i]);
    }
}

/// What it means to start with `data:` or with `event:`, byte by byte.
proof fn lemma_marks(line: Seq<u8>)
    ensures
        begins(line, data_mark()) <==> line.len() >= 5 && line[0] == 100 && line[1] == 97 && line[2]
            == 116 && line[3] == 97 && line[4] == 58,
        begins(line, event_mark()) <==> line.len() >= 6 && line[0] == 101 && line[1] == 118
            && line[2] == 101 && line[3] == 110 && line[4] == 116 && line[5] == 58,
{
    if line.len() >= 5 {
        let head = line.take(5);
        assert(head[0] == line[0] && head[1] == line[1] && head[2] == line[2] && head[3] == line[3]
            && head[4] == line[4]);
        if line[0] == 100 && line[1] == 97 && line[2] == 116 && line[3] == 97 && line[4] == 58 {
            assert(head =~= data_mark());
        }
    }
    if line.len() >= 6 {
        let head = line.take(6);
        assert(head[0] == line[0] && head[1] == line[1] && head[2] == line[2] && head[3] == line[3]
            && head[4] == line[4] && head[5] == line[5]);
        if line[0] == 101 && line[1] == 118 && line[2] == 101 && line[3] == 110 && line[4] == 116
            && line[5] == 58 {
            assert(head =~= event_mark());
        }
    }
}

/// No line of the group is blank.
pub open spec fn is_group(lines: Seq<Seq<u8>>) -> bool {
    forall|i: int| 0 <= i < lines.len() ==> (#[trigger] lines[i]).len() > 0
}

/// A blank line ends an event, and the events behind it are read as if they stood alone.
pub proof fn law_blank_line_ends_an_event(group: Seq<Seq<u8>>, rest: Seq<Seq<u8>>)
    requires
        is_group(group),
    ensures
        events_of(group.push(Seq::empty()) + rest) == events_of(group) + events_of(rest),
        events_of(Seq::empty()) == Seq::<Seq<u8>>::empty(),
{
    let all = group.push(Seq::empty()) + rest;
    assert forall|i: int| 0 <= i < group.len() implies (#[trigger] all[i]).len() > 0 by {
        assert(all[i] == group[i]);
    }
    lemma_until_blank_at(all, group.len() as int);
    lemma_until_blank_at(group, group.len() as int);
    assert(all.take(group.len() as int) =~= group);
    assert(all.skip(group.len() as int + 1) =~= rest);
    assert(events_of(Seq::<Seq<u8>>::empty()) =~= Seq::<Seq<u8>>::empty());
}

/// A line that starts with the bytes of `data:` adds what follows them to the event, behind a
/// newline where the event has a value already; one space behind the colon is no part of it. A line
/// of any other kind adds nothing.
pub proof fn law_lines_of_an_event(group: Seq<Seq<u8>>, line: Seq<u8>)
    requires
        is_group(group),
        line.len() > 0,
    ensures
        events_of(group).len() <= 1,
        events_of(group.push(line)) == if line.len() >= 5 && line[0] == 100 && line[1] == 97
            && line[2] == 116 && line[3] == 97 && line[4] == 58 {
            let value = if line.len() > 5 && line[5] == 32 {
                line.skip(6)
            } else {
                line.skip(5)
            };
            if events_of(group).len() == 0 {
                seq![value]
            } else {
                seq![events_of(group)[0].push(10) + value]
            }
        } else {
            events_of(group)
        },
{
    let more = group.push(line);
    lemma_until_blank_at(group, group.len() as int);
    assert forall|i: int| 0 <= i < more.len() implies (#[trigger] more[i]).len() > 0 by {
        if i < group.len() {
            assert(more[i] == group[i]);
        }
    }
    lemma_until_blank_at(more, more.len() as int);
    lemma_one_more_line(group, line);
    lemma_marks(line);
    assert(line.len() > 5 ==> line.skip(5).skip(1) =~= line.skip(6));
}

} // verus!
