//! Metadata index model: the store is modeled as the append-only sequence
//! of its published records, oldest first.  A name resolves to the most
//! recently published record carrying it; an identifier resolves to the
//! unique record it was assigned to.

use vstd::prelude::*;

verus! {

/// Model of one published record: its identifier, its name, and the
/// content bytes its chunks reconstruct.
pub ghost struct RecordModel {
    pub id: int,
    pub name: Seq<char>,
    pub content: Seq<u8>,
}

/// Index of the live record for `name`: the most recently published
/// record carrying that name, or -1 if none does.
pub open spec fn live_index(recs: Seq<RecordModel>, name: Seq<char>) -> int
    decreases recs.len(),
{
    if recs.len() == 0 {
        -1
    } else if recs.last().name == name {
        recs.len() - 1
    } else {
        live_index(recs.drop_last(), name)
    }
}

/// Whether some live record carries `name`.
pub open spec fn has_name(recs: Seq<RecordModel>, name: Seq<char>) -> bool {
    live_index(recs, name) >= 0
}

/// Content of the live record for `name`; meaningful only when
/// `has_name` holds.
pub open spec fn content_live(recs: Seq<RecordModel>, name: Seq<char>) -> Seq<u8> {
    recs[live_index(recs, name)].content
}

/// Content of the live record for `name`, if any.
pub open spec fn lookup(recs: Seq<RecordModel>, name: Seq<char>) -> Option<Seq<u8>> {
    if has_name(recs, name) {
        Some(content_live(recs, name))
    } else {
        None
    }
}

/// Index of the record carrying identifier `id`, or -1 if none does.
pub open spec fn id_index(recs: Seq<RecordModel>, id: int) -> int
    decreases recs.len(),
{
    if recs.len() == 0 {
        -1
    } else if recs.last().id == id {
        recs.len() - 1
    } else {
        id_index(recs.drop_last(), id)
    }
}

/// Whether some record carries identifier `id`.
pub open spec fn has_id(recs: Seq<RecordModel>, id: int) -> bool {
    id_index(recs, id) >= 0
}

/// What `live_index` finds: a record carrying `name` that no later record
/// shadows, or the guarantee that no record carries `name` at all.
pub proof fn lemma_live_index_props(recs: Seq<RecordModel>, name: Seq<char>)
    ensures
        -1 <= live_index(recs, name) < recs.len(),
        live_index(recs, name) >= 0 ==> recs[live_index(recs, name)].name == name,
        forall|j: int|
            live_index(recs, name) < j < recs.len() ==> (#[trigger] recs[j]).name != name,
    decreases recs.len(),
{
    if recs.len() > 0 && recs.last().name != name {
        lemma_live_index_props(recs.drop_last(), name);
        assert forall|j: int|
            live_index(recs, name) < j < recs.len() implies (#[trigger] recs[j]).name != name by {
            if j < recs.len() - 1 {
                assert(recs.drop_last()[j] == recs[j]);
            }
        }
    }
}

/// What `id_index` finds, in the same way.
pub proof fn lemma_id_index_props(recs: Seq<RecordModel>, id: int)
    ensures
        -1 <= id_index(recs, id) < recs.len(),
        id_index(recs, id) >= 0 ==> recs[id_index(recs, id)].id == id,
        forall|j: int| id_index(recs, id) < j < recs.len() ==> (#[trigger] recs[j]).id != id,
    decreases recs.len(),
{
    if recs.len() > 0 && recs.last().id != id {
        lemma_id_index_props(recs.drop_last(), id);
        assert forall|j: int|
            id_index(recs, id) < j < recs.len() implies (#[trigger] recs[j]).id != id by {
            if j < recs.len() - 1 {
                assert(recs.drop_last()[j] == recs[j]);
            }
        }
    }
}

/// Round trip: once record `r` is published, its name is live and resolves
/// to exactly its content — whatever was in the store before.
pub proof fn lemma_write_then_read(recs: Seq<RecordModel>, r: RecordModel)
    ensures
        has_name(recs.push(r), r.name),
        live_index(recs.push(r), r.name) == recs.len(),
        lookup(recs.push(r), r.name) == Some(r.content),
{
    assert(recs.push(r).last() == r);
}

/// Publishing a record under one name leaves every other name's lookup
/// unchanged.
pub proof fn lemma_write_preserves_others(recs: Seq<RecordModel>, r: RecordModel, other: Seq<char>)
    requires
        other != r.name,
    ensures
        lookup(recs.push(r), other) == lookup(recs, other),
        has_name(recs.push(r), other) == has_name(recs, other),
{
    assert(recs.push(r).drop_last() =~= recs);
    lemma_live_index_props(recs, other);
    if has_name(recs, other) {
        assert(recs.push(r)[live_index(recs, other)] == recs[live_index(recs, other)]);
    }
}

/// A name that no record carries has no live record: lookups fail before
/// any write under the name, and for a name never written at all.
pub proof fn lemma_unwritten_not_found(recs: Seq<RecordModel>, name: Seq<char>)
    requires
        forall|i: int| 0 <= i < recs.len() ==> (#[trigger] recs[i]).name != name,
    ensures
        !has_name(recs, name),
        lookup(recs, name) is None,
    decreases recs.len(),
{
    if recs.len() > 0 {
        lemma_unwritten_not_found(recs.drop_last(), name);
    }
}

/// The empty store holds no name at all.
pub proof fn lemma_empty_lookup(name: Seq<char>)
    ensures
        !has_name(Seq::empty(), name),
        lookup(Seq::empty(), name) is None,
{
}

} // verus!
