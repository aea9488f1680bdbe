//! What holds across several store operations.

use vstd::prelude::*;
use crate::mark::MarkModel;
use crate::store::{StoreModel, other_row, rows_for, lemma_filter_subset};

verus! {

/// A mark that was just added is found again under its new id, with exactly
/// the fields it was added with, and its tag set is the set of the labels it
/// was added with (duplicates and order do not matter).
pub proof fn law_add_then_get(
    s: StoreModel,
    name: Seq<char>,
    description: Seq<char>,
    url: Seq<char>,
    application: Seq<char>,
    tags: Seq<Seq<char>>,
)
    requires
        s.wf(),
        !s.has_name(name),
        s.next_id < i64::MAX,
    ensures
        s.added(name, description, url, application, tags).wf(),
        s.added(name, description, url, application, tags).lookup(s.next_id) == Some(
            MarkModel { id: s.next_id, name, description, url, application },
        ),
        s.added(name, description, url, application, tags).tag_set(s.next_id) == tags.to_set(),
{
    let s2 = s.added(name, description, url, application, tags);
    let last = s.marks.len() as int;
    assert(s2.marks[last].id == s.next_id);
    assert(s2.has_mark(s.next_id));
    let j = choose|j: int| 0 <= j < s2.marks.len() && s2.marks[j].id == s.next_id;
    if j < last {
        assert(s.marks[j].id < s.next_id);
    }
    assert forall|t: Seq<char>| s2.tag_set(s.next_id).contains(t) implies tags.to_set().contains(t) by {
        let k = choose|k: int| 0 <= k < s2.rows.len() && s2.rows[k] == (s.next_id, t);
        if k < s.rows.len() {
            assert(s.rows[k] == s2.rows[k]);
            assert(s.has_mark(s.rows[k].0));
            let i = choose|i: int| 0 <= i < s.marks.len() && s.marks[i].id == s.rows[k].0;
        } else {
            assert(rows_for(s.next_id, tags)[k - s.rows.len()] == s2.rows[k]);
            assert(tags[k - s.rows.len()] == t);
        }
    }
    assert forall|t: Seq<char>| tags.to_set().contains(t) implies s2.tag_set(s.next_id).contains(t) by {
        let a = choose|a: int| 0 <= a < tags.len() && tags[a] == t;
        assert(s2.rows[s.rows.len() + a] == (s.next_id, t));
    }
    assert(s2.tag_set(s.next_id) =~= tags.to_set());
    assert forall|k: int| 0 <= k < s2.rows.len() implies s2.has_mark((#[trigger] s2.rows[k]).0) by {
        if k < s.rows.len() {
            assert(s.rows[k] == s2.rows[k]);
            assert(s.has_mark(s.rows[k].0));
            let i = choose|i: int| 0 <= i < s.marks.len() && s.marks[i].id == s.rows[k].0;
            assert(s2.marks[i] == s.marks[i]);
        } else {
            assert(rows_for(s.next_id, tags)[k - s.rows.len()] == s2.rows[k]);
        }
    }
}

/// Once a mark is added, its name is taken: adding another mark with that
/// name fails with `DuplicateName` and leaves the store as it was.
pub proof fn law_added_name_is_taken(
    s: StoreModel,
    name: Seq<char>,
    description: Seq<char>,
    url: Seq<char>,
    application: Seq<char>,
    tags: Seq<Seq<char>>,
)
    ensures
        s.added(name, description, url, application, tags).has_name(name),
{
    let s2 = s.added(name, description, url, application, tags);
    assert(s2.marks[s.marks.len() as int].name == name);
}

/// After a mark is deleted, it is not found and it has no tags.
pub proof fn law_delete_cascades(s: StoreModel, id: int)
    requires
        s.wf(),
    ensures
        s.without_mark(id).lookup(id) is None,
        s.without_mark(id).tag_set(id) == Set::<Seq<char>>::empty(),
{
    let s2 = s.without_mark(id);
    lemma_filter_subset(s.marks, crate::store::other_mark(id));
    lemma_filter_subset(s.rows, crate::store::other_mark_row(id));
    assert(!s2.has_mark(id)) by {
        if s2.has_mark(id) {
            let i = choose|i: int| 0 <= i < s2.marks.len() && s2.marks[i].id == id;
            assert(crate::store::other_mark(id)(s2.marks[i]));
        }
    }
    assert forall|t: Seq<char>| !s2.tag_set(id).contains(t) by {
        if s2.tag_set(id).contains(t) {
            let k = choose|k: int| 0 <= k < s2.rows.len() && s2.rows[k] == (id, t);
            assert(crate::store::other_mark_row(id)(s2.rows[k]));
        }
    }
    assert(s2.tag_set(id) =~= Set::<Seq<char>>::empty());
}

/// Clearing twice is the same as clearing once, and leaves no marks.
pub proof fn law_clear_idempotent(s: StoreModel)
    requires
        s.wf(),
    ensures
        s.cleared().wf(),
        s.cleared().cleared() == s.cleared(),
        s.cleared().marks.len() == 0,
        s.cleared().rows.len() == 0,
{
}

/// The labels that the tag rows hold, whatever their mark.
pub open spec fn all_labels(s: StoreModel) -> Set<Seq<char>> {
    s.rows.map_values(|r: (int, Seq<char>)| r.1).to_set()
}

/// The tag set of a mark is finite.
pub proof fn law_tag_set_finite(s: StoreModel, id: int)
    ensures
        s.tag_set(id).finite(),
{
    let all = all_labels(s);
    assert(all.finite()) by {
        vstd::seq_lib::seq_to_set_is_finite(s.rows.map_values(|r: (int, Seq<char>)| r.1));
    }
    assert forall|t: Seq<char>| s.tag_set(id).contains(t) implies all.contains(t) by {
        let k = choose|k: int| 0 <= k < s.rows.len() && s.rows[k] == (id, t);
        assert(s.rows.map_values(|r: (int, Seq<char>)| r.1)[k] == t);
    }
    vstd::set_lib::lemma_set_subset_finite(all, s.tag_set(id));
}

/// Deleting one label of a mark removes that label from the mark's tag set
/// and nothing else from any tag set; the tag set shrinks by one, so
/// repeating this while labels remain ends with an empty tag set.
pub proof fn law_delete_tag_removes_one(s: StoreModel, id: int, t: Seq<char>)
    requires
        s.wf(),
        s.tag_set(id).contains(t),
    ensures
        s.without_tag(id, t).wf(),
        s.without_tag(id, t).tag_set(id) == s.tag_set(id).remove(t),
        forall|other: int| other != id ==> s.without_tag(id, t).tag_set(other) == #[trigger] s.tag_set(
            other,
        ),
        s.without_tag(id, t).tag_set(id).len() + 1 == s.tag_set(id).len(),
        s.without_tag(id, t).marks == s.marks,
{
    let s2 = s.without_tag(id, t);
    let p = other_row(id, t);
    lemma_filter_subset(s.rows, p);
    assert forall|other: int, u: Seq<char>|
        (other != id || u != t) implies (s2.tag_set(other).contains(u) <==> s.tag_set(other).contains(u)) by {
        if s2.tag_set(other).contains(u) {
            let k = choose|k: int| 0 <= k < s2.rows.len() && s2.rows[k] == (other, u);
            assert(s.rows.contains(s2.rows[k]));
        }
        if s.tag_set(other).contains(u) {
            let k = choose|k: int| 0 <= k < s.rows.len() && s.rows[k] == (other, u);
            assert(p(s.rows[k]));
            assert(s2.rows.contains(s.rows[k]));
        }
    }
    assert(!s2.tag_set(id).contains(t)) by {
        if s2.tag_set(id).contains(t) {
            let k = choose|k: int| 0 <= k < s2.rows.len() && s2.rows[k] == (id, t);
            assert(p(s2.rows[k]));
        }
    }
    assert(s2.tag_set(id) =~= s.tag_set(id).remove(t));
    assert forall|other: int| other != id implies s2.tag_set(other) == #[trigger] s.tag_set(other) by {
        assert(s2.tag_set(other) =~= s.tag_set(other));
    }
    law_tag_set_finite(s, id);
    assert forall|k: int| 0 <= k < s2.rows.len() implies s2.has_mark((#[trigger] s2.rows[k]).0) by {
        assert(s.rows.contains(s2.rows[k]));
        let kk = choose|kk: int| 0 <= kk < s.rows.len() && s.rows[kk] == s2.rows[k];
        assert(s.has_mark(s.rows[kk].0));
        let i = choose|i: int| 0 <= i < s.marks.len() && s.marks[i].id == s.rows[kk].0;
        assert(s2.marks[i].id == s2.rows[k].0);
    }
}

} // verus!
