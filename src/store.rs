//! The bookmark store: marks with unique names and ids, and tag rows that
//! refer to them.

use vstd::prelude::*;
use crate::mark::{MarkModel, SchWiMark, Tag, TagRow, MarkShort, StoreError, texts};

verus! {

/// The store's contents as mathematical values.
pub ghost struct StoreModel {
    /// The marks, by ascending id.
    pub marks: Seq<MarkModel>,
    /// The tag rows, as (mark id, label), in insertion order.
    pub rows: Seq<(int, Seq<char>)>,
    /// The id the next added mark gets.
    pub next_id: int,
}

/// The tag rows that attach each of `tags` to the mark `id`.
pub open spec fn rows_for(id: int, tags: Seq<Seq<char>>) -> Seq<(int, Seq<char>)> {
    tags.map_values(|t: Seq<char>| (id, t))
}

/// Holds of the marks other than `id`.
pub open spec fn other_mark(id: int) -> spec_fn(MarkModel) -> bool {
    |m: MarkModel| m.id != id
}

/// Holds of the tag rows of marks other than `id`.
pub open spec fn other_mark_row(id: int) -> spec_fn((int, Seq<char>)) -> bool {
    |r: (int, Seq<char>)| r.0 != id
}

/// Holds of the tag rows other than those attaching `tag` to `id`.
pub open spec fn other_row(id: int, tag: Seq<char>) -> spec_fn((int, Seq<char>)) -> bool {
    |r: (int, Seq<char>)| !(r.0 == id && r.1 == tag)
}

pub open spec fn mark_views(v: Seq<SchWiMark>) -> Seq<MarkModel> {
    v.map_values(|m: SchWiMark| m@)
}

pub open spec fn row_views(v: Seq<TagRow>) -> Seq<(int, Seq<char>)> {
    v.map_values(|r: TagRow| row_view(r))
}

/// Ids strictly ascend along the sequence.
pub open spec fn ascending(s: Seq<MarkModel>) -> bool {
    forall|i: int, j: int| 0 <= i < j < s.len() ==> (#[trigger] s[i]).id < (#[trigger] s[j]).id
}

/// No two marks of the sequence share a name.
pub open spec fn names_unique(s: Seq<MarkModel>) -> bool {
    forall|i: int, j: int|
        0 <= i < s.len() && 0 <= j < s.len() && i != j ==> (#[trigger] s[i]).name != (#[trigger] s[j]).name
}

pub open spec fn row_view(r: TagRow) -> (int, Seq<char>) {
    (r.markid as int, r.tag@)
}

impl StoreModel {
    pub open spec fn has_mark(self, id: int) -> bool {
        exists|i: int| 0 <= i < self.marks.len() && (#[trigger] self.marks[i]).id == id
    }

    pub open spec fn has_name(self, name: Seq<char>) -> bool {
        exists|i: int| 0 <= i < self.marks.len() && (#[trigger] self.marks[i]).name == name
    }

    /// Another mark than `id` has `name`.
    pub open spec fn name_taken_by_other(self, id: int, name: Seq<char>) -> bool {
        exists|i: int|
            0 <= i < self.marks.len() && (#[trigger] self.marks[i]).name == name
                && self.marks[i].id != id
    }

    pub open spec fn wf(self) -> bool {
        &&& 1 <= self.next_id <= i64::MAX
        &&& forall|i: int|
            0 <= i < self.marks.len() ==> 1 <= (#[trigger] self.marks[i]).id < self.next_id
        &&& ascending(self.marks)
        &&& names_unique(self.marks)
        &&& forall|k: int| 0 <= k < self.rows.len() ==> self.has_mark((#[trigger] self.rows[k]).0)
    }

    /// The mark with this id, if there is one.
    pub open spec fn lookup(self, id: int) -> Option<MarkModel> {
        if self.has_mark(id) {
            Some(self.marks[choose|i: int| 0 <= i < self.marks.len() && self.marks[i].id == id])
        } else {
            None
        }
    }

    /// The labels attached to the mark `id`.
    pub open spec fn tag_set(self, id: int) -> Set<Seq<char>> {
        Set::new(|t: Seq<char>| exists|k: int| 0 <= k < self.rows.len() && self.rows[k] == (id, t))
    }

    /// The store after adding a mark with these fields and tags.
    pub open spec fn added(
        self,
        name: Seq<char>,
        description: Seq<char>,
        url: Seq<char>,
        application: Seq<char>,
        tags: Seq<Seq<char>>,
    ) -> StoreModel {
        StoreModel {
            marks: self.marks.push(
                MarkModel { id: self.next_id, name, description, url, application },
            ),
            rows: self.rows + rows_for(self.next_id, tags),
            next_id: self.next_id + 1,
        }
    }

    /// The store after deleting the mark `id` and, in cascade, its tag rows.
    pub open spec fn without_mark(self, id: int) -> StoreModel {
        StoreModel {
            marks: self.marks.filter(other_mark(id)),
            rows: self.rows.filter(other_mark_row(id)),
            next_id: self.next_id,
        }
    }

    /// The store after applying `f` to the mark `id`.
    pub open spec fn with_mark(self, id: int, f: spec_fn(MarkModel) -> MarkModel) -> StoreModel {
        StoreModel {
            marks: self.marks.map_values(|m: MarkModel| if m.id == id { f(m) } else { m }),
            rows: self.rows,
            next_id: self.next_id,
        }
    }

    pub open spec fn with_name(self, id: int, v: Seq<char>) -> StoreModel {
        self.with_mark(id, |m: MarkModel| MarkModel { name: v, ..m })
    }

    pub open spec fn with_description(self, id: int, v: Seq<char>) -> StoreModel {
        self.with_mark(id, |m: MarkModel| MarkModel { description: v, ..m })
    }

    pub open spec fn with_url(self, id: int, v: Seq<char>) -> StoreModel {
        self.with_mark(id, |m: MarkModel| MarkModel { url: v, ..m })
    }

    pub open spec fn with_application(self, id: int, v: Seq<char>) -> StoreModel {
        self.with_mark(id, |m: MarkModel| MarkModel { application: v, ..m })
    }

    /// The store after attaching each of `tags` to the mark `id`.
    pub open spec fn with_tags(self, id: int, tags: Seq<Seq<char>>) -> StoreModel {
        StoreModel { marks: self.marks, rows: self.rows + rows_for(id, tags), next_id: self.next_id }
    }

    /// The store after removing every row that attaches `tag` to the mark `id`.
    pub open spec fn without_tag(self, id: int, tag: Seq<char>) -> StoreModel {
        StoreModel {
            marks: self.marks,
            rows: self.rows.filter(other_row(id, tag)),
            next_id: self.next_id,
        }
    }

    /// The store with no marks and no tags; ids are still not reused.
    pub open spec fn cleared(self) -> StoreModel {
        StoreModel { marks: Seq::empty(), rows: Seq::empty(), next_id: self.next_id }
    }
}

proof fn lemma_filter_step<A>(s: Seq<A>, i: int, pred: spec_fn(A) -> bool)
    requires
        0 <= i < s.len(),
    ensures
        s.subrange(0, i + 1).filter(pred) == (if pred(s[i]) {
            s.subrange(0, i).filter(pred).push(s[i])
        } else {
            s.subrange(0, i).filter(pred)
        }),
{
    reveal(Seq::filter);
    assert(s.subrange(0, i + 1).drop_last() =~= s.subrange(0, i));
}

proof fn lemma_filter_all<A>(s: Seq<A>, pred: spec_fn(A) -> bool)
    ensures
        s.subrange(0, s.len() as int) == s,
        s.subrange(0, 0).filter(pred) == Seq::<A>::empty(),
{
    reveal(Seq::filter);
    assert(s.subrange(0, s.len() as int) =~= s);
    assert(s.subrange(0, 0) =~= Seq::<A>::empty());
}

/// Every element of a filtered sequence is an element of the sequence.
pub proof fn lemma_filter_subset<A>(s: Seq<A>, pred: spec_fn(A) -> bool)
    ensures
        forall|a: int| 0 <= a < s.filter(pred).len() ==> s.contains(#[trigger] s.filter(pred)[a]),
        forall|i: int| 0 <= i < s.len() && pred(s[i]) ==> s.filter(pred).contains(#[trigger] s[i]),
        forall|a: int| 0 <= a < s.filter(pred).len() ==> pred(#[trigger] s.filter(pred)[a]),
    decreases s.len(),
{
    reveal(Seq::filter);
    if s.len() > 0 {
        let d = s.drop_last();
        lemma_filter_subset(d, pred);
        assert forall|a: int| 0 <= a < s.filter(pred).len() implies s.contains(
            #[trigger] s.filter(pred)[a],
        ) by {
            if a < d.filter(pred).len() {
                let x = d.filter(pred)[a];
                let j = choose|j: int| 0 <= j < d.len() && d[j] == x;
                assert(s[j] == x);
            } else {
                assert(s[s.len() - 1] == s.filter(pred)[a]);
            }
        }
        assert forall|i: int| 0 <= i < s.len() && pred(s[i]) implies s.filter(pred).contains(
            #[trigger] s[i],
        ) by {
            if i < s.len() - 1 {
                assert(d[i] == s[i]);
                let a = choose|a: int| 0 <= a < d.filter(pred).len() && d.filter(pred)[a] == s[i];
                assert(s.filter(pred)[a] == s[i]);
            } else {
                assert(s.filter(pred)[s.filter(pred).len() - 1] == s[i]);
            }
        }
    }
}

/// Filtering keeps ids ascending and names unique.
proof fn lemma_filter_marks(s: Seq<MarkModel>, pred: spec_fn(MarkModel) -> bool)
    requires
        ascending(s),
        names_unique(s),
    ensures
        ascending(s.filter(pred)),
        names_unique(s.filter(pred)),
    decreases s.len(),
{
    reveal(Seq::filter);
    if s.len() > 0 {
        let d = s.drop_last();
        lemma_filter_marks(d, pred);
        lemma_filter_subset(d, pred);
        let f = s.filter(pred);
        let g = d.filter(pred);
        if pred(s.last()) {
            assert forall|a: int| 0 <= a < g.len() implies (#[trigger] g[a]).id < s.last().id
                && g[a].name != s.last().name by {
                assert(d.contains(g[a]));
                let j = choose|j: int| 0 <= j < d.len() && d[j] == g[a];
                assert(s[j] == g[a]);
            }
            assert forall|i: int, j: int| 0 <= i < j < f.len() implies (#[trigger] f[i]).id < (
            #[trigger] f[j]).id by {
                if j == f.len() - 1 {
                    assert(f[i] == g[i]);
                } else {
                    assert(f[i] == g[i] && f[j] == g[j]);
                }
            }
            assert forall|i: int, j: int|
                0 <= i < f.len() && 0 <= j < f.len() && i != j implies (#[trigger] f[i]).name != (
            #[trigger] f[j]).name by {
                if j == f.len() - 1 {
                    assert(f[i] == g[i]);
                } else if i == f.len() - 1 {
                    assert(f[j] == g[j]);
                } else {
                    assert(f[i] == g[i] && f[j] == g[j]);
                }
            }
        }
    }
}

/// The bookmark store.
pub struct Store {
    marks: Vec<SchWiMark>,
    rows: Vec<TagRow>,
    next_id: i64,
}

impl View for Store {
    type V = StoreModel;

    closed spec fn view(&self) -> StoreModel {
        StoreModel {
            marks: mark_views(self.marks@),
            rows: row_views(self.rows@),
            next_id: self.next_id as int,
        }
    }
}

/// Holds of the tag rows whose mark is among `marks`.
pub open spec fn known_mark_row(marks: Seq<MarkModel>) -> spec_fn((int, Seq<char>)) -> bool {
    |r: (int, Seq<char>)| exists|i: int| 0 <= i < marks.len() && (#[trigger] marks[i]).id == r.0
}

/// The labels that the first `n` rows attach to the mark `id`.
pub open spec fn tags_among(rows: Seq<(int, Seq<char>)>, id: int, n: int) -> Set<Seq<char>> {
    Set::new(|t: Seq<char>| exists|k: int| 0 <= k < n && rows[k] == (id, t))
}

fn contains_text(v: &Vec<String>, t: &String) -> (r: bool)
    ensures
        r == texts(v@).contains(t@),
{
    let mut i: usize = 0;
    while i < v.len()
        invariant
            i <= v@.len(),
            forall|j: int| 0 <= j < i ==> v@[j]@ != t@,
        decreases v@.len() - i,
    {
        if v[i] == *t {
            assert(texts(v@)[i as int] == t@);
            return true;
        }
        i = i + 1;
    }
    false
}

fn copy_texts(v: &Vec<String>) -> (r: Vec<String>)
    ensures
        texts(r@) == texts(v@),
{
    let mut r: Vec<String> = Vec::new();
    let mut i: usize = 0;
    while i < v.len()
        invariant
            i <= v@.len(),
            texts(r@) =~= texts(v@.subrange(0, i as int)),
        decreases v@.len() - i,
    {
        r.push(v[i].clone());
        assert(texts(v@.subrange(0, i + 1)) =~= texts(v@.subrange(0, i as int)).push(v@[i as int]@));
        i = i + 1;
    }
    assert(v@.subrange(0, i as int) =~= v@);
    r
}

impl Store {
    /// An empty store; the first mark added gets id 1.
    pub fn new() -> (r: Store)
        ensures
            r@.wf(),
            r@.marks.len() == 0,
            r@.rows.len() == 0,
            r@.next_id == 1,
    {
        Store { marks: Vec::new(), rows: Vec::new(), next_id: 1 }
    }

    fn find_name(&self, name: &String) -> (r: bool)
        ensures
            r == self@.has_name(name@),
    {
        let mut i: usize = 0;
        while i < self.marks.len()
            invariant
                i <= self.marks@.len(),
                forall|j: int| 0 <= j < i ==> self@.marks[j].name != name@,
            decreases self.marks@.len() - i,
        {
            if self.marks[i].name == *name {
                assert(self@.marks[i as int].name == name@);
                return true;
            }
            i = i + 1;
        }
        false
    }

    fn find_index(&self, id: i64) -> (r: Option<usize>)
        requires
            self@.wf(),
        ensures
            r matches Some(i) ==> i < self@.marks.len() && self@.marks[i as int].id == id,
            r is None ==> !self@.has_mark(id as int),
    {
        let mut i: usize = 0;
        while i < self.marks.len()
            invariant
                i <= self.marks@.len(),
                forall|j: int| 0 <= j < i ==> self@.marks[j].id != id,
            decreases self.marks@.len() - i,
        {
            if self.marks[i].id == id {
                return Some(i);
            }
            i = i + 1;
        }
        None
    }

    /// Copies the tag rows that do not belong to the mark `id` or, when `tag`
    /// is given, that do not attach it to the mark `id`.
    fn kept_rows(&self, id: i64, tag: Option<&String>) -> (r: Vec<TagRow>)
        ensures
            tag is None ==> row_views(r@) == self@.rows.filter(other_mark_row(id as int)),
            tag matches Some(t) ==> row_views(r@) == self@.rows.filter(other_row(id as int, t@)),
    {
        let ghost p = match tag {
            Some(t) => other_row(id as int, t@),
            None => other_mark_row(id as int),
        };
        let ghost rows = self@.rows;
        let mut out: Vec<TagRow> = Vec::new();
        proof {
            lemma_filter_all(rows, p);
        }
        let mut i: usize = 0;
        while i < self.rows.len()
            invariant
                rows == self@.rows,
                i <= rows.len(),
                p == (match tag {
                    Some(t) => other_row(id as int, t@),
                    None => other_mark_row(id as int),
                }),
                row_views(out@) == rows.subrange(0, i as int).filter(p),
            decreases rows.len() - i,
        {
            proof {
                lemma_filter_step(rows, i as int, p);
            }
            let row = &self.rows[i];
            let keep = match tag {
                Some(t) => !(row.markid == id && row.tag == *t),
                None => row.markid != id,
            };
            if keep {
                let ghost before = out@;
                out.push(TagRow { markid: row.markid, tag: row.tag.clone() });
                assert(row_views(out@) =~= row_views(before).push(rows[i as int]));
            }
            i = i + 1;
        }
        proof {
            lemma_filter_all(rows, p);
        }
        out
    }

    fn name_taken_by_other(&self, id: i64, name: &String) -> (r: bool)
        ensures
            r == self@.name_taken_by_other(id as int, name@),
    {
        let mut i: usize = 0;
        while i < self.marks.len()
            invariant
                i <= self.marks@.len(),
                forall|j: int| 0 <= j < i ==> !(self@.marks[j].name == name@ && self@.marks[j].id != id),
            decreases self.marks@.len() - i,
        {
            if self.marks[i].id != id && self.marks[i].name == *name {
                assert(self@.marks[i as int].name == name@);
                return true;
            }
            i = i + 1;
        }
        false
    }

    /// Puts `m` at index `i`, in place of the mark with the same id.
    fn replace_mark(&mut self, i: usize, m: SchWiMark, Ghost(f): Ghost<spec_fn(MarkModel) -> MarkModel>)
        requires
            old(self)@.wf(),
            i < old(self)@.marks.len(),
            m@ == f(old(self)@.marks[i as int]),
            m@.id == old(self)@.marks[i as int].id,
            !old(self)@.name_taken_by_other(m@.id, m@.name),
        ensures
            final(self)@ == old(self)@.with_mark(m@.id, f),
            final(self)@.wf(),
    {
        let ghost s0 = self@;
        let ghost id = m@.id;
        self.marks.set(i, m);
        proof {
            let s1 = self@;
            assert forall|j: int| 0 <= j < s0.marks.len() && j != i implies s0.marks[j].id != id by {
                if j < i {
                    assert(s0.marks[j].id < s0.marks[i as int].id);
                } else {
                    assert(s0.marks[i as int].id < s0.marks[j].id);
                }
            }
            assert(s1.marks =~= s0.with_mark(id, f).marks);
            assert forall|k: int| 0 <= k < s1.rows.len() implies s1.has_mark((#[trigger] s1.rows[k]).0) by {
                assert(s0.has_mark(s0.rows[k].0));
                let j = choose|j: int| 0 <= j < s0.marks.len() && s0.marks[j].id == s0.rows[k].0;
                assert(s1.marks[j].id == s0.marks[j].id);
            }
            assert forall|a: int, b: int|
                0 <= a < s1.marks.len() && 0 <= b < s1.marks.len() && a != b implies (
            #[trigger] s1.marks[a]).name != (#[trigger] s1.marks[b]).name by {
                if a == i {
                    assert(s1.marks[b] == s0.marks[b]);
                } else if b == i {
                    assert(s1.marks[a] == s0.marks[a]);
                }
            }
        }
    }

    /// Renames the mark `id`; fails with `DuplicateName`, leaving the store
    /// unchanged, when another mark has that name.
    pub fn update_name(&mut self, id: i64, name: String) -> (r: Result<(), StoreError>)
        requires
            old(self)@.wf(),
        ensures
            final(self)@.wf(),
            old(self)@.name_taken_by_other(id as int, name@) ==> r == Err::<(), StoreError>(
                StoreError::DuplicateName,
            ) && final(self)@ == old(self)@,
            !old(self)@.name_taken_by_other(id as int, name@) ==> r is Ok && final(self)@
                == old(self)@.with_name(id as int, name@),
    {
        if self.name_taken_by_other(id, &name) {
            return Err(StoreError::DuplicateName);
        }
        match self.find_index(id) {
            Some(i) => {
                let cur = self.marks[i].duplicate();
                let ghost v = name@;
                let m = SchWiMark { name, ..cur };
                self.replace_mark(i, m, Ghost(|x: MarkModel| MarkModel { name: v, ..x }));
            },
            None => {
                assert(self@.marks =~= self@.with_name(id as int, name@).marks);
            },
        }
        Ok(())
    }

    /// Replaces the description of the mark `id`.
    pub fn update_description(&mut self, id: i64, description: String)
        requires
            old(self)@.wf(),
        ensures
            final(self)@.wf(),
            final(self)@ == old(self)@.with_description(id as int, description@),
    {
        match self.find_index(id) {
            Some(i) => {
                let cur = self.marks[i].duplicate();
                let ghost v = description@;
                let m = SchWiMark { description, ..cur };
                assert(!self@.name_taken_by_other(id as int, m@.name));
                self.replace_mark(i, m, Ghost(|x: MarkModel| MarkModel { description: v, ..x }));
            },
            None => {
                assert(self@.marks =~= self@.with_description(id as int, description@).marks);
            },
        }
    }

    /// Replaces the target (URL or path) of the mark `id`.
    pub fn update_url(&mut self, id: i64, url: String)
        requires
            old(self)@.wf(),
        ensures
            final(self)@.wf(),
            final(self)@ == old(self)@.with_url(id as int, url@),
    {
        match self.find_index(id) {
            Some(i) => {
                let cur = self.marks[i].duplicate();
                let ghost v = url@;
                let m = SchWiMark { url, ..cur };
                assert(!self@.name_taken_by_other(id as int, m@.name));
                self.replace_mark(i, m, Ghost(|x: MarkModel| MarkModel { url: v, ..x }));
            },
            None => {
                assert(self@.marks =~= self@.with_url(id as int, url@).marks);
            },
        }
    }

    /// Replaces the opening application of the mark `id` (empty: the
    /// platform's default handler).
    pub fn update_application(&mut self, id: i64, application: String)
        requires
            old(self)@.wf(),
        ensures
            final(self)@.wf(),
            final(self)@ == old(self)@.with_application(id as int, application@),
    {
        match self.find_index(id) {
            Some(i) => {
                let cur = self.marks[i].duplicate();
                let ghost v = application@;
                let m = SchWiMark { application, ..cur };
                assert(!self@.name_taken_by_other(id as int, m@.name));
                self.replace_mark(i, m, Ghost(|x: MarkModel| MarkModel { application: v, ..x }));
            },
            None => {
                assert(self@.marks =~= self@.with_application(id as int, application@).marks);
            },
        }
    }

    /// Attaches each of `tags` to the mark `id`, without looking at the tags
    /// it already has. Fails with `NotFound`, leaving the store unchanged,
    /// when there is no such mark.
    pub fn add_tags(&mut self, id: i64, tags: Vec<String>) -> (r: Result<(), StoreError>)
        requires
            old(self)@.wf(),
        ensures
            final(self)@.wf(),
            !old(self)@.has_mark(id as int) ==> r == Err::<(), StoreError>(StoreError::NotFound)
                && final(self)@ == old(self)@,
            old(self)@.has_mark(id as int) ==> r is Ok && final(self)@ == old(self)@.with_tags(
                id as int,
                texts(tags@),
            ),
    {
        if self.find_index(id).is_none() {
            return Err(StoreError::NotFound);
        }
        let ghost before = self@;
        assert(rows_for(id as int, texts(tags@.subrange(0, 0))) =~= Seq::empty()) by {
            assert(tags@.subrange(0, 0) =~= Seq::<String>::empty());
        }
        assert(self@.rows =~= before.rows + rows_for(id as int, texts(tags@.subrange(0, 0))));
        let mut i: usize = 0;
        while i < tags.len()
            invariant
                self@.marks == before.marks,
                self@.next_id == before.next_id,
                i <= tags@.len(),
                self@.rows == before.rows + rows_for(id as int, texts(tags@.subrange(0, i as int))),
            decreases tags@.len() - i,
        {
            let ghost rows_before = self@.rows;
            let row = TagRow { markid: id, tag: tags[i].clone() };
            self.rows.push(row);
            assert(self@.rows =~= rows_before.push((id as int, tags@[i as int]@)));
            assert(texts(tags@.subrange(0, i + 1)) =~= texts(tags@.subrange(0, i as int)).push(
                tags@[i as int]@,
            ));
            assert(rows_for(id as int, texts(tags@.subrange(0, i + 1))) =~= rows_for(
                id as int,
                texts(tags@.subrange(0, i as int)),
            ).push((id as int, tags@[i as int]@)));
            assert(self@.rows =~= before.rows + rows_for(id as int, texts(tags@.subrange(0, i + 1))));
            i = i + 1;
        }
        assert(tags@.subrange(0, i as int) =~= tags@);
        Ok(())
    }

    /// Removes every row that attaches `tag` to the mark `id`.
    pub fn delete_tag(&mut self, id: i64, tag: String)
        requires
            old(self)@.wf(),
        ensures
            final(self)@.wf(),
            final(self)@ == old(self)@.without_tag(id as int, tag@),
    {
        let ghost s0 = self@;
        let rows = self.kept_rows(id, Some(&tag));
        self.rows = rows;
        proof {
            lemma_filter_subset(s0.rows, other_row(id as int, tag@));
            assert forall|k: int| 0 <= k < self@.rows.len() implies self@.has_mark(
                (#[trigger] self@.rows[k]).0,
            ) by {
                assert(s0.rows.contains(self@.rows[k]));
                let kk = choose|kk: int| 0 <= kk < s0.rows.len() && s0.rows[kk] == self@.rows[k];
                assert(s0.has_mark(s0.rows[kk].0));
                let j = choose|j: int| 0 <= j < s0.marks.len() && s0.marks[j].id == s0.rows[kk].0;
                assert(self@.marks[j].id == s0.marks[j].id);
            }
        }
    }

    /// Deletes every mark and every tag.
    pub fn clear_database(&mut self)
        requires
            old(self)@.wf(),
        ensures
            final(self)@.wf(),
            final(self)@ == old(self)@.cleared(),
    {
        self.marks = Vec::new();
        self.rows = Vec::new();
        assert(self@.marks =~= Seq::<MarkModel>::empty());
        assert(self@.rows =~= Seq::<(int, Seq<char>)>::empty());
    }

    /// The distinct labels attached to the mark `id`, each once.
    pub fn get_tags(&self, id: i64) -> (r: Vec<String>)
        ensures
            texts(r@).no_duplicates(),
            texts(r@).to_set() == self@.tag_set(id as int),
    {
        let ghost rows = self@.rows;
        let mut out: Vec<String> = Vec::new();
        assert(texts(out@).to_set() =~= tags_among(rows, id as int, 0));
        let mut i: usize = 0;
        while i < self.rows.len()
            invariant
                rows == self@.rows,
                i <= rows.len(),
                texts(out@).no_duplicates(),
                texts(out@).to_set() == tags_among(rows, id as int, i as int),
            decreases rows.len() - i,
        {
            let row = &self.rows[i];
            if row.markid == id && !contains_text(&out, &row.tag) {
                let ghost before = out@;
                out.push(row.tag.clone());
                assert(texts(out@) =~= texts(before).push(rows[i as int].1));
                assert(texts(out@).to_set() =~= tags_among(rows, id as int, i + 1)) by {
                    assert forall|t: Seq<char>| tags_among(rows, id as int, i + 1).contains(t) implies texts(
                        out@,
                    ).to_set().contains(t) by {
                        let k = choose|k: int| 0 <= k < i + 1 && rows[k] == (id as int, t);
                        if k < i {
                            assert(tags_among(rows, id as int, i as int).contains(t));
                            assert(texts(before).contains(t));
                            let a = choose|a: int| 0 <= a < texts(before).len() && texts(before)[a] == t;
                            assert(texts(out@)[a] == t);
                        } else {
                            assert(texts(out@)[texts(out@).len() - 1] == t);
                        }
                    }
                    assert forall|t: Seq<char>| texts(out@).to_set().contains(t) implies tags_among(
                        rows,
                        id as int,
                        i + 1,
                    ).contains(t) by {
                        let a = choose|a: int| 0 <= a < texts(out@).len() && texts(out@)[a] == t;
                        if a < texts(before).len() {
                            assert(texts(before)[a] == t);
                            assert(texts(before).to_set().contains(t));
                        } else {
                            assert(rows[i as int] == (id as int, t));
                        }
                    }
                }
            } else {
                assert(texts(out@).to_set() =~= tags_among(rows, id as int, i + 1)) by {
                    assert forall|t: Seq<char>| tags_among(rows, id as int, i + 1).contains(t) implies texts(
                        out@,
                    ).to_set().contains(t) by {
                        let k = choose|k: int| 0 <= k < i + 1 && rows[k] == (id as int, t);
                        if k < i {
                            assert(tags_among(rows, id as int, i as int).contains(t));
                        } else {
                            assert(texts(out@).contains(t));
                        }
                    }
                    assert forall|t: Seq<char>| texts(out@).to_set().contains(t) implies tags_among(
                        rows,
                        id as int,
                        i + 1,
                    ).contains(t) by {
                        assert(tags_among(rows, id as int, i as int).contains(t));
                        let k = choose|k: int| 0 <= k < i && rows[k] == (id as int, t);
                    }
                }
            }
            i = i + 1;
        }
        assert(tags_among(rows, id as int, i as int) =~= self@.tag_set(id as int));
        out
    }

    /// The mark `id` with its distinct tags; `NotFound` when there is none.
    pub fn get_mark(&self, id: i64) -> (r: Result<(SchWiMark, Tag), StoreError>)
        requires
            self@.wf(),
        ensures
            self@.lookup(id as int) is None ==> r == Err::<(SchWiMark, Tag), StoreError>(
                StoreError::NotFound,
            ),
            self@.lookup(id as int) matches Some(m) ==> r matches Ok(p) && p.0@ == m && p.1.markid
                == id && texts(p.1.tags@).no_duplicates() && texts(p.1.tags@).to_set()
                == self@.tag_set(id as int),
    {
        match self.find_index(id) {
            Some(i) => {
                let mark = self.marks[i].duplicate();
                proof {
                    let j = choose|j: int| 0 <= j < self@.marks.len() && self@.marks[j].id == id;
                    if j < i {
                        assert(self@.marks[j].id < self@.marks[i as int].id);
                    } else if j > i {
                        assert(self@.marks[i as int].id < self@.marks[j].id);
                    }
                }
                Ok((mark, Tag::new(id, self.get_tags(id))))
            },
            None => Err(StoreError::NotFound),
        }
    }

    /// Every mark, by ascending id, each with its distinct tags.
    pub fn list_marks_full(&self) -> (r: Vec<(SchWiMark, Tag)>)
        ensures
            r@.len() == self@.marks.len(),
            forall|i: int|
                0 <= i < r@.len() ==> {
                    let p = #[trigger] r@[i];
                    &&& p.0@ == self@.marks[i]
                    &&& p.1.markid == self@.marks[i].id
                    &&& texts(p.1.tags@).no_duplicates()
                    &&& texts(p.1.tags@).to_set() == self@.tag_set(self@.marks[i].id)
                },
    {
        let mut out: Vec<(SchWiMark, Tag)> = Vec::new();
        let mut i: usize = 0;
        while i < self.marks.len()
            invariant
                i <= self@.marks.len(),
                out@.len() == i,
                forall|a: int|
                    0 <= a < i ==> {
                        let p = #[trigger] out@[a];
                        &&& p.0@ == self@.marks[a]
                        &&& p.1.markid == self@.marks[a].id
                        &&& texts(p.1.tags@).no_duplicates()
                        &&& texts(p.1.tags@).to_set() == self@.tag_set(self@.marks[a].id)
                    },
            decreases self@.marks.len() - i,
        {
            let mark = self.marks[i].duplicate();
            let id = mark.id;
            let tags = self.get_tags(id);
            out.push((mark, Tag::new(id, tags)));
            i = i + 1;
        }
        out
    }

    /// Every mark in short form (id, name, distinct tags), by ascending id.
    pub fn list_marks_short(&self) -> (r: Vec<MarkShort>)
        ensures
            r@.len() == self@.marks.len(),
            forall|i: int|
                0 <= i < r@.len() ==> {
                    let e = #[trigger] r@[i];
                    &&& e.id == self@.marks[i].id
                    &&& e.name@ == self@.marks[i].name
                    &&& texts(e.tags@).no_duplicates()
                    &&& texts(e.tags@).to_set() == self@.tag_set(self@.marks[i].id)
                },
    {
        let mut out: Vec<MarkShort> = Vec::new();
        let mut i: usize = 0;
        while i < self.marks.len()
            invariant
                i <= self@.marks.len(),
                out@.len() == i,
                forall|a: int|
                    0 <= a < i ==> {
                        let e = #[trigger] out@[a];
                        &&& e.id == self@.marks[a].id
                        &&& e.name@ == self@.marks[a].name
                        &&& texts(e.tags@).no_duplicates()
                        &&& texts(e.tags@).to_set() == self@.tag_set(self@.marks[a].id)
                    },
            decreases self@.marks.len() - i,
        {
            let id = self.marks[i].id;
            let tags = self.get_tags(id);
            out.push(MarkShort { id, name: self.marks[i].name.clone(), tags });
            i = i + 1;
        }
        out
    }

    /// Builds a store from rows read back from its backing file: the marks by
    /// ascending id, the tag rows, and the next id to hand out. Tag rows whose
    /// mark is missing are skipped. Fails with `StorageError` when the marks
    /// break the store's rules (ids not ascending, or not in `1..next_id`,
    /// or a name twice).
    pub fn from_rows(marks: Vec<SchWiMark>, rows: Vec<TagRow>, next_id: i64) -> (r: Result<Store, StoreError>)
        ensures
            r is Ok <==> ({
                let m = mark_views(marks@);
                &&& 1 <= next_id
                &&& forall|i: int| 0 <= i < m.len() ==> 1 <= (#[trigger] m[i]).id < next_id
                &&& ascending(m)
                &&& names_unique(m)
            }),
            r is Err ==> r == Err::<Store, StoreError>(StoreError::StorageError),
            r matches Ok(st) ==> {
                &&& st@.wf()
                &&& st@.marks == mark_views(marks@)
                &&& st@.rows == row_views(rows@).filter(known_mark_row(mark_views(marks@)))
                &&& st@.next_id == next_id
            },
    {
        let ghost m = mark_views(marks@);
        if next_id < 1 {
            return Err(StoreError::StorageError);
        }
        let mut i: usize = 0;
        while i < marks.len()
            invariant
                m == mark_views(marks@),
                1 <= next_id,
                i <= m.len(),
                forall|a: int| 0 <= a < i ==> 1 <= (#[trigger] m[a]).id < next_id,
                ascending(m.subrange(0, i as int)),
                names_unique(m.subrange(0, i as int)),
            decreases m.len() - i,
        {
            let id = marks[i].id;
            assert(m[i as int].id == id);
            if id < 1 || id >= next_id {
                return Err(StoreError::StorageError);
            }
            if i > 0 && marks[i - 1].id >= id {
                assert(m[i - 1].id >= m[i as int].id);
                assert(!ascending(m));
                return Err(StoreError::StorageError);
            }
            let mut j: usize = 0;
            while j < i
                invariant
                    m == mark_views(marks@),
                    j <= i < m.len(),
                    forall|b: int| 0 <= b < j ==> m[b].name != m[i as int].name,
                decreases i - j,
            {
                if marks[j].name == marks[i].name {
                    assert(m[j as int].name == m[i as int].name);
                    assert(!names_unique(m));
                    return Err(StoreError::StorageError);
                }
                j = j + 1;
            }
            proof {
                let s0 = m.subrange(0, i as int);
                let s1 = m.subrange(0, i + 1);
                assert forall|a: int, b: int| 0 <= a < b < s1.len() implies (#[trigger] s1[a]).id < (
                #[trigger] s1[b]).id by {
                    if b == i && a < i - 1 {
                        assert(s0[a].id < s0[i - 1].id);
                    }
                }
                assert forall|a: int, b: int|
                    0 <= a < s1.len() && 0 <= b < s1.len() && a != b implies (#[trigger] s1[a]).name
                    != (#[trigger] s1[b]).name by {
                    if a != i && b != i {
                        assert(s0[a] == s1[a] && s0[b] == s1[b]);
                    }
                }
            }
            i = i + 1;
        }
        assert(m.subrange(0, m.len() as int) =~= m);
        let mut st = Store { marks, rows: Vec::new(), next_id };
        assert(st@.rows =~= Seq::<(int, Seq<char>)>::empty());
        let ghost rv = row_views(rows@);
        let ghost p = known_mark_row(m);
        proof {
            lemma_filter_all(rv, p);
        }
        let mut k: usize = 0;
        while k < rows.len()
            invariant
                st@.wf(),
                st@.marks == m,
                st@.next_id == next_id,
                rv == row_views(rows@),
                p == known_mark_row(m),
                k <= rv.len(),
                st@.rows == rv.subrange(0, k as int).filter(p),
            decreases rv.len() - k,
        {
            proof {
                lemma_filter_step(rv, k as int, p);
            }
            let markid = rows[k].markid;
            if st.find_index(markid).is_some() {
                let ghost before = st@.rows;
                st.rows.push(TagRow { markid, tag: rows[k].tag.clone() });
                assert(st@.rows =~= before.push(rv[k as int]));
            } else {
                assert(!p(rv[k as int]));
            }
            k = k + 1;
        }
        proof {
            lemma_filter_all(rv, p);
        }
        Ok(st)
    }

    /// The marks, by ascending id, and the tag rows, as they are to be
    /// written back to the backing file.
    pub fn rows(&self) -> (r: (Vec<SchWiMark>, Vec<TagRow>, i64))
        ensures
            mark_views(r.0@) == self@.marks,
            row_views(r.1@) == self@.rows,
            r.2 == self@.next_id,
    {
        let mut marks: Vec<SchWiMark> = Vec::new();
        let mut i: usize = 0;
        while i < self.marks.len()
            invariant
                i <= self@.marks.len(),
                mark_views(marks@) == self@.marks.subrange(0, i as int),
            decreases self@.marks.len() - i,
        {
            let ghost before = marks@;
            marks.push(self.marks[i].duplicate());
            assert(mark_views(marks@) =~= mark_views(before).push(self@.marks[i as int]));
            assert(self@.marks.subrange(0, i + 1) =~= self@.marks.subrange(0, i as int).push(
                self@.marks[i as int],
            ));
            i = i + 1;
        }
        let mut rows: Vec<TagRow> = Vec::new();
        let mut k: usize = 0;
        while k < self.rows.len()
            invariant
                k <= self@.rows.len(),
                row_views(rows@) == self@.rows.subrange(0, k as int),
            decreases self@.rows.len() - k,
        {
            let ghost before = rows@;
            rows.push(TagRow { markid: self.rows[k].markid, tag: self.rows[k].tag.clone() });
            assert(row_views(rows@) =~= row_views(before).push(self@.rows[k as int]));
            assert(self@.rows.subrange(0, k + 1) =~= self@.rows.subrange(0, k as int).push(
                self@.rows[k as int],
            ));
            k = k + 1;
        }
        assert(self@.marks.subrange(0, i as int) =~= self@.marks);
        assert(self@.rows.subrange(0, k as int) =~= self@.rows);
        (marks, rows, self.next_id)
    }

    /// Deletes the mark `id` and, in cascade, its tags; nothing happens when
    /// there is no such mark.
    pub fn delete_mark(&mut self, id: i64)
        requires
            old(self)@.wf(),
        ensures
            final(self)@ == old(self)@.without_mark(id as int),
            final(self)@.wf(),
    {
        let ghost m0 = self@;
        let ghost pm = other_mark(id as int);
        let mut marks: Vec<SchWiMark> = Vec::new();
        proof {
            lemma_filter_all(m0.marks, pm);
        }
        let mut i: usize = 0;
        while i < self.marks.len()
            invariant
                self@ == m0,
                pm == other_mark(id as int),
                i <= m0.marks.len(),
                mark_views(marks@) == m0.marks.subrange(0, i as int).filter(pm),
            decreases m0.marks.len() - i,
        {
            proof {
                lemma_filter_step(m0.marks, i as int, pm);
            }
            if self.marks[i].id != id {
                let ghost before = marks@;
                marks.push(self.marks[i].duplicate());
                assert(mark_views(marks@) =~= mark_views(before).push(m0.marks[i as int]));
            }
            i = i + 1;
        }
        proof {
            lemma_filter_all(m0.marks, pm);
        }
        let rows = self.kept_rows(id, None);
        self.marks = marks;
        self.rows = rows;
        proof {
            let m1 = self@;
            lemma_filter_marks(m0.marks, pm);
            lemma_filter_subset(m0.marks, pm);
            lemma_filter_subset(m0.rows, other_mark_row(id as int));
            assert(m1 == m0.without_mark(id as int));
            assert forall|i: int| 0 <= i < m1.marks.len() implies 1 <= (#[trigger] m1.marks[i]).id
                < m1.next_id by {
                assert(m0.marks.contains(m1.marks[i]));
            }
            assert forall|k: int| 0 <= k < m1.rows.len() implies m1.has_mark(
                (#[trigger] m1.rows[k]).0,
            ) by {
                let r = m1.rows[k];
                assert(m0.rows.contains(r));
                assert(other_mark_row(id as int)(r));
                let kk = choose|kk: int| 0 <= kk < m0.rows.len() && m0.rows[kk] == r;
                assert(m0.has_mark(m0.rows[kk].0));
                let j = choose|j: int| 0 <= j < m0.marks.len() && m0.marks[j].id == r.0;
                assert(pm(m0.marks[j]));
                assert(m1.marks.contains(m0.marks[j]));
            }
        }
    }

    /// Adds a mark with a fresh id, then one tag row per element of `tags`.
    /// Fails, leaving the store unchanged, when the name is taken
    /// (`DuplicateName`) or the ids are exhausted (`StorageError`).
    pub fn add_mark(
        &mut self,
        name: String,
        description: String,
        url: String,
        application: String,
        tags: Vec<String>,
    ) -> (r: Result<(SchWiMark, Tag), StoreError>)
        requires
            old(self)@.wf(),
        ensures
            final(self)@.wf(),
            old(self)@.has_name(name@) ==> r == Err::<(SchWiMark, Tag), StoreError>(
                StoreError::DuplicateName,
            ),
            !old(self)@.has_name(name@) && old(self)@.next_id == i64::MAX ==> r == Err::<
                (SchWiMark, Tag),
                StoreError,
            >(StoreError::StorageError),
            !old(self)@.has_name(name@) && old(self)@.next_id < i64::MAX ==> r is Ok,
            r is Err ==> final(self)@ == old(self)@,
            r matches Ok(p) ==> {
                &&& final(self)@ == old(self)@.added(
                    name@,
                    description@,
                    url@,
                    application@,
                    texts(tags@),
                )
                &&& p.0@ == (MarkModel {
                    id: old(self)@.next_id,
                    name: name@,
                    description: description@,
                    url: url@,
                    application: application@,
                })
                &&& p.1.markid == old(self)@.next_id
                &&& texts(p.1.tags@) == texts(tags@)
            },
    {
        if self.find_name(&name) {
            return Err(StoreError::DuplicateName);
        }
        if self.next_id == i64::MAX {
            return Err(StoreError::StorageError);
        }
        let id = self.next_id;
        let ghost before = self@;
        let mark = SchWiMark::new(id, name, description, url, application);
        let kept = mark.duplicate();
        self.marks.push(mark);
        self.next_id = id + 1;
        let ghost mid = self@;
        assert(mid.marks =~= before.marks.push(kept@));
        assert(forall|k: int| 0 <= k < before.rows.len() ==> mid.has_mark(#[trigger] before.rows[k].0)) by {
            assert forall|k: int| 0 <= k < before.rows.len() implies mid.has_mark(#[trigger] before.rows[k].0) by {
                assert(before.has_mark(before.rows[k].0));
                let i = choose|i: int| 0 <= i < before.marks.len() && before.marks[i].id == before.rows[k].0;
                assert(mid.marks[i] == before.marks[i]);
            }
        }
        assert(rows_for(id as int, texts(tags@.subrange(0, 0))) =~= Seq::empty()) by {
            assert(tags@.subrange(0, 0) =~= Seq::<String>::empty());
        }
        assert(self@.rows =~= before.rows + rows_for(id as int, texts(tags@.subrange(0, 0))));
        let mut i: usize = 0;
        while i < tags.len()
            invariant
                self@.marks == mid.marks,
                self.next_id == id + 1,
                id == before.next_id,
                i <= tags@.len(),
                self@.rows == before.rows + rows_for(id as int, texts(tags@.subrange(0, i as int))),
            decreases tags@.len() - i,
        {
            let ghost rows_before = self@.rows;
            let row = TagRow { markid: id, tag: tags[i].clone() };
            assert(row_view(row) == (id as int, tags@[i as int]@));
            self.rows.push(row);
            assert(self@.rows =~= rows_before.push((id as int, tags@[i as int]@)));
            assert(texts(tags@.subrange(0, i + 1)) =~= texts(tags@.subrange(0, i as int)).push(
                tags@[i as int]@,
            ));
            assert(rows_for(id as int, texts(tags@.subrange(0, i + 1))) =~= rows_for(
                id as int,
                texts(tags@.subrange(0, i as int)),
            ).push((id as int, tags@[i as int]@)));
            assert(self@.rows =~= before.rows + rows_for(id as int, texts(tags@.subrange(0, i + 1))));
            i = i + 1;
        }
        assert(tags@.subrange(0, i as int) =~= tags@);
        let ghost last = self.marks@.len() - 1;
        assert(self@.marks[last].id == id);
        assert(self@.wf());
        let copied = copy_texts(&tags);
        Ok((kept, Tag::new(id, copied)))
    }
}

} // verus!
