//! What servers say of their tools, remembered.
//!
//! A tool says in the result of `tools/list`, not in the call, whether it only reads. A tool that
//! was seen to say otherwise is marked for a while, and while it is marked its calls are not
//! cached, whatever the configuration allows. Of a tool that was never seen, the configuration
//! decides.

use crate::mcp::{safety_model, safety_of, tool_safety_from_list};
use crate::store::{
    after_puts, entry_at, lemma_puts_elsewhere, row_at, CachedEntry, EntryModel, RowModel,
};
use vstd::prelude::*;
use vstd::string::*;

verus! {

/// How long a mark lasts, in seconds.
pub const ANNOTATION_TTL_SECS: u64 = 300;

/// The key under which the mark of a tool stands.
pub open spec fn marker_key(tool: Seq<char>) -> Seq<char> {
    "ann:unsafe:"@ + tool
}

/// The mark that is set at `now`.
pub open spec fn marker(now: int) -> EntryModel {
    EntryModel { written_at: now, valid_until: now + ANNOTATION_TTL_SECS, body: seq![49u8] }
}

/// The marks for the tools in a list that are not safe, in order.
pub open spec fn markers(list: Seq<(Seq<char>, bool)>, now: int) -> Seq<(Seq<char>, EntryModel)>
    decreases list.len(),
{
    if list.len() == 0 {
        Seq::empty()
    } else if list.last().1 {
        markers(list.drop_last(), now)
    } else {
        markers(list.drop_last(), now).push((marker_key(list.last().0), marker(now)))
    }
}

/// What a list of writes stands for.
pub open spec fn writes_model(writes: Seq<(String, CachedEntry)>) -> Seq<
    (Seq<char>, EntryModel),
> {
    writes.map_values(|write: (String, CachedEntry)| (write.0@, write.1@))
}

/// The key under which the mark of a tool stands.
pub fn annotation_key(tool: &str) -> (key: String)
    ensures
        key@ == marker_key(tool@),
{
    let mut key: String = "ann:unsafe:".to_owned();
    key.append(tool);
    key
}

/// The marks to write for the tools that are not safe.
pub fn markers_from_safety(list: &Vec<(String, bool)>, now: u64) -> (writes: Vec<
    (String, CachedEntry),
>)
    requires
        now + ANNOTATION_TTL_SECS <= u64::MAX,
    ensures
        writes_model(writes@) == markers(safety_model(list@), now as int),
{
    let ghost all = safety_model(list@);
    let mut writes: Vec<(String, CachedEntry)> = Vec::new();
    let mut i: usize = 0;
    proof {
        assert(all.take(0) =~= Seq::empty());
        assert(writes_model(writes@) =~= Seq::empty());
    }
    while i < list.len()
        invariant
            i <= list@.len(),
            all == safety_model(list@),
            now + ANNOTATION_TTL_SECS <= u64::MAX,
            writes_model(writes@) == markers(all.take(i as int), now as int),
        decreases list@.len() - i,
    {
        let ghost before = writes@;
        proof {
            assert(all.take(i + 1).drop_last() =~= all.take(i as int));
            assert(all.take(i + 1).last() == (list@[i as int].0@, list@[i as int].1));
        }
        if !list[i].1 {
            let mut body: Vec<u8> = Vec::new();
            body.push(49);
            assert(body@ =~= seq![49u8]);
            let entry: CachedEntry = CachedEntry {
                written_at: now,
                valid_until: now + ANNOTATION_TTL_SECS,
                body,
            };
            let key: String = annotation_key(list[i].0.as_str());
            writes.push((key, entry));
            assert(writes_model(writes@) =~= writes_model(before).push((key@, entry@)));
        }
        i += 1;
    }
    assert(all.take(all.len() as int) =~= all);
    writes
}

/// The marks to write after a `tools/list` response was seen: one for every tool that it does not
/// report as safe.
pub fn record_from_list(result_body: &[u8], now: u64) -> (writes: Vec<(String, CachedEntry)>)
    requires
        now + ANNOTATION_TTL_SECS <= u64::MAX,
    ensures
        writes_model(writes@) == markers(safety_of(result_body@), now as int),
{
    markers_from_safety(&tool_safety_from_list(result_body), now)
}

/// Whether a tool is marked, given what was read under its `annotation_key`.
pub fn is_known_unsafe(marker: &Option<CachedEntry>) -> (marked: bool)
    ensures
        marked == (marker is Some),
{
    marker.is_some()
}

// ---------------------------------------------------------------------------------------------
// Laws
// ---------------------------------------------------------------------------------------------

/// Every mark belongs to a tool in the list that is not safe.
pub proof fn lemma_markers(list: Seq<(Seq<char>, bool)>, now: int, i: int) -> (n: int)
    requires
        0 <= i < markers(list, now).len(),
    ensures
        0 <= n < list.len(),
        !list[n].1,
        markers(list, now)[i] == (marker_key(list[n].0), marker(now)),
    decreases list.len(),
{
    let fewer = list.drop_last();
    if list.last().1 || i < markers(fewer, now).len() {
        let n = lemma_markers(fewer, now, i);
        assert(fewer[n] == list[n]);
        n
    } else {
        list.len() - 1
    }
}

/// Different tools have different keys.
pub proof fn law_marker_keys_differ(a: Seq<char>, b: Seq<char>)
    requires
        marker_key(a) == marker_key(b),
    ensures
        a == b,
{
    let head = "ann:unsafe:"@;
    assert(marker_key(a).skip(head.len() as int) =~= a);
    assert(marker_key(b).skip(head.len() as int) =~= b);
}

/// A tool that a list reports as not safe is known to be unsafe once the marks are written, for as
/// long as a mark lasts. A mark that was there before is refreshed.
pub proof fn law_unsafe_tool_is_remembered(
    contents: Map<Seq<char>, RowModel>,
    list: Seq<(Seq<char>, bool)>,
    n: int,
    now: int,
    later: int,
)
    requires
        0 <= n < list.len(),
        !list[n].1,
        later < now + ANNOTATION_TTL_SECS,
    ensures
        entry_at(
            after_puts(contents, true, markers(list, now)),
            marker_key(list[n].0),
            later,
        ) == Some(marker(now)),
    decreases list.len(),
{
    let fewer = list.drop_last();
    if !list.last().1 {
        assert(markers(list, now).drop_last() =~= markers(fewer, now));
    }
    if n < list.len() - 1 {
        assert(fewer[n] == list[n]);
        law_unsafe_tool_is_remembered(contents, fewer, n, now, later);
    }
}

/// A tool that a list reports as safe, or does not name, is not marked by it.
pub proof fn law_safe_tool_is_not_marked(
    contents: Map<Seq<char>, RowModel>,
    list: Seq<(Seq<char>, bool)>,
    tool: Seq<char>,
    now: int,
)
    requires
        forall|i: int| 0 <= i < list.len() && (#[trigger] list[i]).0 == tool ==> list[i].1,
    ensures
        row_at(after_puts(contents, true, markers(list, now)), marker_key(tool)) == row_at(
            contents,
            marker_key(tool),
        ),
{
    let all = markers(list, now);
    assert forall|i: int| 0 <= i < all.len() implies (#[trigger] all[i]).0 != marker_key(tool) by {
        let n = lemma_markers(list, now, i);
        if all[i].0 == marker_key(tool) {
            law_marker_keys_differ(list[n].0, tool);
        }
    }
    lemma_puts_elsewhere(contents, true, all, marker_key(tool));
}

} // verus!
