//! The entity store: one table of heroes keyed by an integer id.
//!
//! In contracts a table is a map from id to record. Heroes are listed by
//! ascending id, which is the order of their creation: ids start at 1, each
//! new record takes the next one, and an id is never used twice, not even
//! after the record that had it is deleted.

use vstd::prelude::*;
use crate::hero::{Hero, HeroView, views};

verus! {

/// Why the store could not do what it was asked.
#[derive(Debug, Clone, Copy, PartialEq, Eq, Structural)]
pub enum StoreError {
    /// A constraint of the table forbids the row; for the table in memory,
    /// the id column has no value left to give.
    Constraint,
    /// The storage session broke down.
    Connectivity,
}

/// What a table is in contracts: the name of the hero at each id, and the
/// last id that was given out.
pub struct TableView {
    pub heroes: Map<i32, Seq<char>>,
    pub last_id: int,
}

/// The heroes with ids from 1 to `upto`, by ascending id.
pub open spec fn listing_upto(heroes: Map<i32, Seq<char>>, upto: int) -> Seq<HeroView>
    decreases upto,
{
    if upto <= 0 {
        Seq::empty()
    } else if heroes.dom().contains(upto as i32) {
        listing_upto(heroes, upto - 1).push(
            HeroView { id: Some(upto as i32), name: heroes[upto as i32] },
        )
    } else {
        listing_upto(heroes, upto - 1)
    }
}

impl TableView {
    /// The table before anything was stored.
    pub open spec fn empty() -> TableView {
        TableView { heroes: Map::empty(), last_id: 0 }
    }

    /// Every id in the table lies between 1 and the last one given out.
    pub open spec fn wf(self) -> bool {
        &&& 0 <= self.last_id <= i32::MAX
        &&& forall|id: i32| #[trigger] self.heroes.dom().contains(id) ==> 1 <= id <= self.last_id
    }

    /// Whether there is a record at this id.
    pub open spec fn contains(self, id: i32) -> bool {
        self.heroes.dom().contains(id)
    }

    /// The record at this id.
    pub open spec fn hero(self, id: i32) -> HeroView {
        HeroView { id: Some(id), name: self.heroes[id] }
    }

    /// All records, by ascending id.
    pub open spec fn listing(self) -> Seq<HeroView> {
        listing_upto(self.heroes, self.last_id)
    }

    /// Whether another id can be given out.
    pub open spec fn can_create(self) -> bool {
        self.last_id < i32::MAX
    }

    /// The record that `create` stores and returns for this name.
    pub open spec fn created(self, name: Seq<char>) -> HeroView {
        HeroView { id: Some((self.last_id + 1) as i32), name }
    }

    /// The table after a successful `create`.
    pub open spec fn create(self, name: Seq<char>) -> TableView {
        TableView {
            heroes: self.heroes.insert((self.last_id + 1) as i32, name),
            last_id: self.last_id + 1,
        }
    }

    /// The table after `update`: the record at this id, if there is one,
    /// carries the new name; nothing else changes.
    pub open spec fn update(self, id: i32, name: Seq<char>) -> TableView {
        if self.contains(id) {
            TableView { heroes: self.heroes.insert(id, name), ..self }
        } else {
            self
        }
    }

    /// The table after `delete`: there is no record at this id; nothing
    /// else changes.
    pub open spec fn delete(self, id: i32) -> TableView {
        TableView { heroes: self.heroes.remove(id), ..self }
    }
}

/// One operation of the entity store, with its parameters decoded.
#[derive(Debug, PartialEq, Eq)]
pub enum StoreOp {
    /// Read all records.
    List,
    /// Insert this record; its id is unset.
    Create(Hero),
    /// Overwrite the record at this id with this record, which carries the
    /// same id.
    Update(i32, Hero),
    /// Remove the record at this id.
    Delete(i32),
}

/// What a store operation is in contracts: the id it addresses and the
/// name it writes.
pub enum OpView {
    List,
    Create { name: Seq<char> },
    Update { id: i32, name: Seq<char> },
    Delete { id: i32 },
}

impl View for StoreOp {
    type V = OpView;

    open spec fn view(&self) -> OpView {
        match *self {
            StoreOp::List => OpView::List,
            StoreOp::Create(hero) => OpView::Create { name: hero.name@ },
            StoreOp::Update(id, hero) => OpView::Update { id, name: hero.name@ },
            StoreOp::Delete(id) => OpView::Delete { id },
        }
    }
}

impl StoreOp {
    /// The hero that the operation carries is the one that a handler
    /// hands to the store: for a create its id is unset, for an update it
    /// is the id of the path.
    pub open spec fn carries_its_id(&self) -> bool {
        match *self {
            StoreOp::Create(hero) => hero.id is None,
            StoreOp::Update(id, hero) => hero.id == Some(id),
            _ => true,
        }
    }
}

/// What a store operation reports back.
#[derive(Debug, PartialEq, Eq)]
pub enum StoreOutcome {
    /// The record that was inserted, with its id.
    Created(Hero),
    /// All records.
    Listed(Vec<Hero>),
    /// Whether there was a record to overwrite.
    Updated(bool),
    /// Whether there was a record to remove.
    Deleted(bool),
    /// The operation failed.
    Fault(StoreError),
}

/// What an outcome is in contracts.
pub enum OutcomeView {
    Created(HeroView),
    Listed(Seq<HeroView>),
    Updated(bool),
    Deleted(bool),
    Fault(StoreError),
}

impl View for StoreOutcome {
    type V = OutcomeView;

    open spec fn view(&self) -> OutcomeView {
        match *self {
            StoreOutcome::Created(hero) => OutcomeView::Created(hero@),
            StoreOutcome::Listed(heroes) => OutcomeView::Listed(views(heroes@)),
            StoreOutcome::Updated(found) => OutcomeView::Updated(found),
            StoreOutcome::Deleted(found) => OutcomeView::Deleted(found),
            StoreOutcome::Fault(error) => OutcomeView::Fault(error),
        }
    }
}

impl TableView {
    /// The table after one operation.
    pub open spec fn after(self, op: OpView) -> TableView {
        match op {
            OpView::List => self,
            OpView::Create { name } => if self.can_create() {
                self.create(name)
            } else {
                self
            },
            OpView::Update { id, name } => self.update(id, name),
            OpView::Delete { id } => self.delete(id),
        }
    }

    /// What one operation reports back.
    pub open spec fn outcome(self, op: OpView) -> OutcomeView {
        match op {
            OpView::List => OutcomeView::Listed(self.listing()),
            OpView::Create { name } => if self.can_create() {
                OutcomeView::Created(self.created(name))
            } else {
                OutcomeView::Fault(StoreError::Constraint)
            },
            OpView::Update { id, .. } => OutcomeView::Updated(self.contains(id)),
            OpView::Delete { id } => OutcomeView::Deleted(self.contains(id)),
        }
    }
}

/// Every row has an id, and ids grow strictly along the rows.
spec fn in_order(rows: Seq<HeroView>) -> bool {
    &&& forall|i: int| 0 <= i < rows.len() ==> (#[trigger] rows[i]).id is Some
    &&& forall|i: int, j: int|
        0 <= i < j < rows.len() ==> (#[trigger] rows[i]).id->0 < (#[trigger] rows[j]).id->0
}

/// Every row has an id between 1 and `upto`.
spec fn ids_within(rows: Seq<HeroView>, upto: int) -> bool {
    forall|i: int| 0 <= i < rows.len() ==> 1 <= (#[trigger] rows[i]).id->0 <= upto
}

/// Some row has this id.
spec fn has_row(rows: Seq<HeroView>, id: i32) -> bool {
    exists|i: int| 0 <= i < rows.len() && (#[trigger] rows[i]).id == Some(id)
}

/// Where the row with this id stands.
spec fn row_of(rows: Seq<HeroView>, id: i32) -> int {
    choose|i: int| 0 <= i < rows.len() && (#[trigger] rows[i]).id == Some(id)
}

/// The map from id to name that the rows hold.
spec fn heroes_of(rows: Seq<HeroView>) -> Map<i32, Seq<char>> {
    Map::new(|id: i32| has_row(rows, id), |id: i32| rows[row_of(rows, id)].name)
}

/// Each row is found under its id.
proof fn lemma_row_is_mapped(rows: Seq<HeroView>, at: int)
    requires
        in_order(rows),
        0 <= at < rows.len(),
    ensures
        has_row(rows, rows[at].id->0),
        row_of(rows, rows[at].id->0) == at,
        heroes_of(rows).dom().contains(rows[at].id->0),
        heroes_of(rows)[rows[at].id->0] == rows[at].name,
{
    let id = rows[at].id->0;
    assert(rows[at].id == Some(id));
    let found = row_of(rows, id);
    assert(0 <= found < rows.len() && rows[found].id == Some(id));
    if found < at {
        assert(rows[found].id->0 < rows[at].id->0);
    } else if at < found {
        assert(rows[at].id->0 < rows[found].id->0);
    }
}

/// Each id of the map is the id of a row.
proof fn lemma_mapped_is_row(rows: Seq<HeroView>, id: i32)
    requires
        heroes_of(rows).dom().contains(id),
    ensures
        0 <= row_of(rows, id) < rows.len(),
        rows[row_of(rows, id)].id == Some(id),
        heroes_of(rows)[id] == rows[row_of(rows, id)].name,
{
    assert(has_row(rows, id));
}

/// A row with a greater id than all others, put at the end, adds its entry
/// to the map.
proof fn lemma_heroes_of_push(rows: Seq<HeroView>, row: HeroView)
    requires
        in_order(rows),
        row.id is Some,
        forall|i: int| 0 <= i < rows.len() ==> (#[trigger] rows[i]).id->0 < row.id->0,
    ensures
        in_order(rows.push(row)),
        heroes_of(rows.push(row)) == heroes_of(rows).insert(row.id->0, row.name),
{
    let after = rows.push(row);
    let id = row.id->0;
    assert(in_order(after));
    let expected = heroes_of(rows).insert(id, row.name);
    assert forall|key: i32| #[trigger]
        heroes_of(after).dom().contains(key) == expected.dom().contains(key) by {
        if heroes_of(after).dom().contains(key) {
            lemma_mapped_is_row(after, key);
            let at = row_of(after, key);
            if at < rows.len() {
                assert(rows[at] == after[at]);
                lemma_row_is_mapped(rows, at);
            }
        }
        if expected.dom().contains(key) {
            if key == id {
                lemma_row_is_mapped(after, rows.len() as int);
            } else {
                lemma_mapped_is_row(rows, key);
                let at = row_of(rows, key);
                assert(after[at] == rows[at]);
                lemma_row_is_mapped(after, at);
            }
        }
    }
    assert forall|key: i32| #[trigger]
        heroes_of(after).dom().contains(key) implies heroes_of(after)[key] == expected[key] by {
        lemma_mapped_is_row(after, key);
        let at = row_of(after, key);
        if at < rows.len() {
            assert(rows[at] == after[at]);
            lemma_row_is_mapped(rows, at);
        }
    }
    assert(heroes_of(after) =~= expected);
}

/// A row that takes another name changes its entry of the map.
proof fn lemma_heroes_of_update(rows: Seq<HeroView>, at: int, name: Seq<char>)
    requires
        in_order(rows),
        0 <= at < rows.len(),
    ensures
        in_order(rows.update(at, HeroView { id: rows[at].id, name })),
        heroes_of(rows.update(at, HeroView { id: rows[at].id, name })) == heroes_of(rows).insert(
            rows[at].id->0,
            name,
        ),
{
    let id = rows[at].id->0;
    let after = rows.update(at, HeroView { id: rows[at].id, name });
    assert forall|i: int| 0 <= i < after.len() implies (#[trigger] after[i]).id == rows[i].id by {}
    assert(in_order(after)) by {
        assert forall|i: int, j: int| 0 <= i < j < after.len() implies (#[trigger] after[i]).id->0
            < (#[trigger] after[j]).id->0 by {
            assert(rows[i].id->0 < rows[j].id->0);
        }
    }
    let expected = heroes_of(rows).insert(id, name);
    assert forall|key: i32| #[trigger]
        heroes_of(after).dom().contains(key) == expected.dom().contains(key) by {
        if heroes_of(after).dom().contains(key) {
            lemma_mapped_is_row(after, key);
            lemma_row_is_mapped(rows, row_of(after, key));
        }
        if expected.dom().contains(key) {
            if key == id {
                lemma_row_is_mapped(after, at);
            } else {
                lemma_mapped_is_row(rows, key);
                lemma_row_is_mapped(after, row_of(rows, key));
            }
        }
    }
    assert forall|key: i32| #[trigger]
        heroes_of(after).dom().contains(key) implies heroes_of(after)[key] == expected[key] by {
        lemma_mapped_is_row(after, key);
        let found = row_of(after, key);
        lemma_row_is_mapped(rows, found);
        if found != at {
            assert(after[found] == rows[found]);
        }
    }
    assert(heroes_of(after) =~= expected);
}

/// A row that is taken out takes its entry out of the map.
proof fn lemma_heroes_of_remove(rows: Seq<HeroView>, at: int)
    requires
        in_order(rows),
        0 <= at < rows.len(),
    ensures
        in_order(rows.remove(at)),
        heroes_of(rows.remove(at)) == heroes_of(rows).remove(rows[at].id->0),
{
    let id = rows[at].id->0;
    let after = rows.remove(at);
    let back = |i: int|
        if i < at {
            i
        } else {
            i + 1
        };
    assert forall|i: int| 0 <= i < after.len() implies #[trigger] after[i] == rows[back(i)] by {}
    assert(in_order(after)) by {
        assert forall|i: int| 0 <= i < after.len() implies (#[trigger] after[i]).id is Some by {
            assert(after[i] == rows[back(i)]);
        }
        assert forall|i: int, j: int| 0 <= i < j < after.len() implies (#[trigger] after[i]).id->0
            < (#[trigger] after[j]).id->0 by {
            assert(after[i] == rows[back(i)]);
            assert(after[j] == rows[back(j)]);
            assert(rows[back(i)].id->0 < rows[back(j)].id->0);
        }
    }
    let expected = heroes_of(rows).remove(id);
    assert forall|key: i32| #[trigger]
        heroes_of(after).dom().contains(key) == expected.dom().contains(key) by {
        if heroes_of(after).dom().contains(key) {
            lemma_mapped_is_row(after, key);
            let found = row_of(after, key);
            assert(after[found] == rows[back(found)]);
            lemma_row_is_mapped(rows, back(found));
            lemma_row_is_mapped(rows, at);
        }
        if expected.dom().contains(key) {
            lemma_mapped_is_row(rows, key);
            let found = row_of(rows, key);
            let moved = if found < at {
                found
            } else {
                found - 1
            };
            assert(after[moved] == rows[back(moved)]);
            lemma_row_is_mapped(after, moved);
        }
    }
    assert forall|key: i32| #[trigger]
        heroes_of(after).dom().contains(key) implies heroes_of(after)[key] == expected[key] by {
        lemma_mapped_is_row(after, key);
        let found = row_of(after, key);
        assert(after[found] == rows[back(found)]);
        lemma_row_is_mapped(rows, back(found));
    }
    assert(heroes_of(after) =~= expected);
}

/// Two tables that agree on the ids up to `upto` list the same heroes up
/// to there.
pub proof fn lemma_listing_agrees(
    one: Map<i32, Seq<char>>,
    other: Map<i32, Seq<char>>,
    upto: int,
)
    requires
        upto <= i32::MAX,
        forall|id: i32|
            1 <= id <= upto ==> (#[trigger] one.dom().contains(id)) == other.dom().contains(id),
        forall|id: i32| 1 <= id <= upto && #[trigger] one.dom().contains(id) ==> one[id] == other[id],
    ensures
        listing_upto(one, upto) == listing_upto(other, upto),
    decreases upto,
{
    if upto > 0 {
        lemma_listing_agrees(one, other, upto - 1);
        assert(one.dom().contains(upto as i32) == other.dom().contains(upto as i32));
    }
}

/// Rows in order, with ids up to `upto`, are the listing of their map.
proof fn lemma_listing_of_rows(rows: Seq<HeroView>, upto: int)
    requires
        in_order(rows),
        ids_within(rows, upto),
        0 <= upto <= i32::MAX,
    ensures
        listing_upto(heroes_of(rows), upto) == rows,
    decreases upto,
{
    let heroes = heroes_of(rows);
    if upto == 0 {
        if rows.len() > 0 {
            assert(1 <= rows[0].id->0 <= 0);
        }
        assert(rows =~= Seq::empty());
    } else if heroes.dom().contains(upto as i32) {
        lemma_mapped_is_row(rows, upto as i32);
        let at = row_of(rows, upto as i32);
        if at < rows.len() - 1 {
            assert(rows[at].id->0 < rows[rows.len() - 1].id->0);
            assert(rows[rows.len() - 1].id->0 <= upto);
        }
        let front = rows.drop_last();
        assert forall|i: int| 0 <= i < front.len() implies #[trigger] front[i] == rows[i] by {}
        assert(in_order(front)) by {
            assert forall|i: int, j: int| 0 <= i < j < front.len() implies (
            #[trigger] front[i]).id->0 < (#[trigger] front[j]).id->0 by {
                assert(rows[i].id->0 < rows[j].id->0);
            }
        }
        assert(ids_within(front, upto - 1)) by {
            assert forall|i: int| 0 <= i < front.len() implies 1 <= (#[trigger] front[i]).id->0
                <= upto - 1 by {
                assert(rows[i].id->0 < rows[at].id->0);
            }
        }
        lemma_listing_of_rows(front, upto - 1);
        assert forall|id: i32| 1 <= id <= upto - 1 implies (#[trigger] heroes.dom().contains(id))
            == heroes_of(front).dom().contains(id) by {
            if heroes.dom().contains(id) {
                lemma_mapped_is_row(rows, id);
                assert(front[row_of(rows, id)] == rows[row_of(rows, id)]);
                lemma_row_is_mapped(front, row_of(rows, id));
            }
            if heroes_of(front).dom().contains(id) {
                lemma_mapped_is_row(front, id);
                lemma_row_is_mapped(rows, row_of(front, id));
            }
        }
        assert forall|id: i32|
            1 <= id <= upto - 1 && #[trigger] heroes.dom().contains(id) implies heroes[id]
            == heroes_of(front)[id] by {
            lemma_mapped_is_row(rows, id);
            assert(front[row_of(rows, id)] == rows[row_of(rows, id)]);
            lemma_row_is_mapped(front, row_of(rows, id));
        }
        lemma_listing_agrees(heroes, heroes_of(front), upto - 1);
        assert(rows =~= front.push(rows[at]));
    } else {
        assert(ids_within(rows, upto - 1)) by {
            assert forall|i: int| 0 <= i < rows.len() implies 1 <= (#[trigger] rows[i]).id->0
                <= upto - 1 by {
                lemma_row_is_mapped(rows, i);
            }
        }
        lemma_listing_of_rows(rows, upto - 1);
    }
}

/// The table of heroes, held in memory.
pub struct HeroTable {
    rows: Vec<Hero>,
    last_id: i32,
}

impl View for HeroTable {
    type V = TableView;

    closed spec fn view(&self) -> TableView {
        TableView { heroes: heroes_of(views(self.rows@)), last_id: self.last_id as int }
    }
}

impl HeroTable {
    /// The rows are kept by ascending id.
    pub closed spec fn in_order(&self) -> bool {
        in_order(views(self.rows@)) && ids_within(views(self.rows@), self.last_id as int)
    }

    /// The invariant of the table.
    pub open spec fn wf(&self) -> bool {
        self@.wf() && self.in_order()
    }

    /// An empty table.
    pub fn new() -> (table: HeroTable)
        ensures
            table.wf(),
            table@ == TableView::empty(),
    {
        let table = HeroTable { rows: Vec::new(), last_id: 0 };
        assert(table@.heroes =~= Map::empty());
        table
    }

    /// An empty table whose ids go on after `last_id`, as for a table that
    /// once held that many records. There is none for a negative id.
    pub fn resuming(last_id: i32) -> (table: Option<HeroTable>)
        ensures
            table is Some <==> last_id >= 0,
            table matches Some(t) ==> t.wf() && t@ == (TableView {
                heroes: Map::empty(),
                last_id: last_id as int,
            }),
    {
        if last_id < 0 {
            return None;
        }
        let table = HeroTable { rows: Vec::new(), last_id };
        assert(table@.heroes =~= Map::empty());
        Some(table)
    }

    /// The number of records.
    pub fn len(&self) -> (n: usize)
        requires
            self.wf(),
        ensures
            n == self@.listing().len(),
    {
        proof {
            lemma_listing_of_rows(views(self.rows@), self.last_id as int);
        }
        self.rows.len()
    }

    /// Looks for the row with this id.
    fn find(&self, id: i32) -> (at: Option<usize>)
        requires
            self.wf(),
        ensures
            at is Some <==> self@.contains(id),
            at matches Some(i) ==> i < self.rows.len() && self.rows[i as int].id == Some(id),
    {
        let mut i: usize = 0;
        while i < self.rows.len()
            invariant
                i <= self.rows.len(),
                forall|k: int| 0 <= k < i ==> (#[trigger] views(self.rows@)[k]).id != Some(id),
            decreases self.rows.len() - i,
        {
            match self.rows[i].id {
                Some(found) => {
                    if found == id {
                        assert(views(self.rows@)[i as int].id == Some(id));
                        return Some(i);
                    }
                },
                None => {},
            }
            i += 1;
        }
        None
    }

    /// Stores a new record under the next id and returns it with that id.
    /// An id that the caller supplied is ignored. Fails, leaving the table
    /// as it was, only when no id is left.
    pub fn create(&mut self, hero: Hero) -> (result: Result<Hero, StoreError>)
        requires
            old(self).wf(),
        ensures
            final(self).wf(),
            result is Ok <==> old(self)@.can_create(),
            match result {
                Ok(stored) => {
                    &&& stored@ == old(self)@.created(hero.name@)
                    &&& final(self)@ == old(self)@.create(hero.name@)
                },
                Err(error) => error == StoreError::Constraint && final(self)@ == old(self)@,
            },
    {
        if self.last_id == i32::MAX {
            return Err(StoreError::Constraint);
        }
        let id: i32 = self.last_id + 1;
        let stored = hero.with_id(Some(id));
        proof {
            lemma_heroes_of_push(views(self.rows@), stored@);
        }
        self.last_id = id;
        self.rows.push(stored.clone());
        assert(views(self.rows@) =~= views(old(self).rows@).push(stored@));
        Ok(stored)
    }

    /// All records, by ascending id.
    pub fn list(&self) -> (heroes: Vec<Hero>)
        requires
            self.wf(),
        ensures
            views(heroes@) == self@.listing(),
    {
        let mut heroes: Vec<Hero> = Vec::new();
        let mut i: usize = 0;
        while i < self.rows.len()
            invariant
                i <= self.rows.len(),
                heroes@.len() == i,
                forall|k: int| 0 <= k < i ==> heroes@[k]@ == self.rows@[k]@,
            decreases self.rows.len() - i,
        {
            heroes.push(self.rows[i].clone());
            i += 1;
        }
        proof {
            assert(views(heroes@) =~= views(self.rows@));
            lemma_listing_of_rows(views(self.rows@), self.last_id as int);
        }
        heroes
    }

    /// Gives the record at `id` the fields of `hero`; the record keeps its
    /// id. Returns whether there was such a record. Where there was none,
    /// the table is left as it was.
    pub fn update(&mut self, id: i32, hero: Hero) -> (found: bool)
        requires
            old(self).wf(),
        ensures
            final(self).wf(),
            found == old(self)@.contains(id),
            final(self)@ == old(self)@.update(id, hero.name@),
    {
        match self.find(id) {
            Some(at) => {
                let row = hero.with_id(Some(id));
                proof {
                    lemma_heroes_of_update(views(self.rows@), at as int, hero.name@);
                }
                self.rows.set(at, row);
                assert(views(self.rows@) =~= views(old(self).rows@).update(at as int, row@));
                true
            },
            None => false,
        }
    }

    /// Removes the record at `id`. Returns whether there was such a record.
    pub fn delete(&mut self, id: i32) -> (found: bool)
        requires
            old(self).wf(),
        ensures
            final(self).wf(),
            found == old(self)@.contains(id),
            final(self)@ == old(self)@.delete(id),
    {
        match self.find(id) {
            Some(at) => {
                proof {
                    lemma_heroes_of_remove(views(self.rows@), at as int);
                }
                self.rows.remove(at);
                assert(views(self.rows@) =~= views(old(self).rows@).remove(at as int));
                true
            },
            None => {
                assert(self@.heroes.remove(id) =~= self@.heroes);
                false
            },
        }
    }

    /// Carries out one operation and reports its outcome.
    pub fn apply(&mut self, op: StoreOp) -> (outcome: StoreOutcome)
        requires
            old(self).wf(),
        ensures
            final(self).wf(),
            final(self)@ == old(self)@.after(op@),
            outcome@ == old(self)@.outcome(op@),
    {
        match op {
            StoreOp::List => StoreOutcome::Listed(self.list()),
            StoreOp::Create(hero) => match self.create(hero) {
                Ok(stored) => StoreOutcome::Created(stored),
                Err(error) => StoreOutcome::Fault(error),
            },
            StoreOp::Update(id, hero) => StoreOutcome::Updated(self.update(id, hero)),
            StoreOp::Delete(id) => StoreOutcome::Deleted(self.delete(id)),
        }
    }
}

/// The listing holds the records of the table, each once, by ascending id.
/// Every listed hero is the record at its id, ids grow strictly along the
/// listing, and every record of the table is listed.
pub proof fn lemma_listing_is_by_ascending_id(table: TableView)
    requires
        table.wf(),
    ensures
        forall|i: int|
            0 <= i < table.listing().len() ==> {
                &&& (#[trigger] table.listing()[i]).id is Some
                &&& table.contains(table.listing()[i].id->0)
                &&& table.listing()[i] == table.hero(table.listing()[i].id->0)
            },
        forall|i: int, j: int|
            0 <= i < j < table.listing().len() ==> (#[trigger] table.listing()[i]).id->0 < (
            #[trigger] table.listing()[j]).id->0,
        forall|id: i32|
            table.contains(id) ==> exists|i: int|
                0 <= i < table.listing().len() && #[trigger] table.listing()[i] == table.hero(id),
{
    lemma_listing_upto_is_by_ascending_id(table.heroes, table.last_id);
    assert forall|id: i32| table.contains(id) implies exists|i: int|
        0 <= i < table.listing().len() && #[trigger] table.listing()[i] == table.hero(id) by {
        assert(1 <= id <= table.last_id);
        let i = choose|i: int|
            0 <= i < table.listing().len() && (#[trigger] table.listing()[i]).id == Some(id);
        assert(table.listing()[i] == table.hero(id));
    }
}

/// The same, for the heroes with ids up to `upto`.
proof fn lemma_listing_upto_is_by_ascending_id(heroes: Map<i32, Seq<char>>, upto: int)
    requires
        upto <= i32::MAX,
    ensures
        forall|i: int|
            0 <= i < listing_upto(heroes, upto).len() ==> {
                &&& (#[trigger] listing_upto(heroes, upto)[i]).id is Some
                &&& 1 <= listing_upto(heroes, upto)[i].id->0 <= upto
                &&& heroes.dom().contains(listing_upto(heroes, upto)[i].id->0)
                &&& listing_upto(heroes, upto)[i].name == heroes[listing_upto(
                    heroes,
                    upto,
                )[i].id->0]
            },
        forall|i: int, j: int|
            0 <= i < j < listing_upto(heroes, upto).len() ==> (#[trigger] listing_upto(
                heroes,
                upto,
            )[i]).id->0 < (#[trigger] listing_upto(heroes, upto)[j]).id->0,
        forall|id: i32|
            1 <= id <= upto && heroes.dom().contains(id) ==> exists|i: int|
                0 <= i < listing_upto(heroes, upto).len() && (#[trigger] listing_upto(
                    heroes,
                    upto,
                )[i]).id == Some(id),
    decreases upto,
{
    if upto > 0 {
        lemma_listing_upto_is_by_ascending_id(heroes, upto - 1);
        let before = listing_upto(heroes, upto - 1);
        let all = listing_upto(heroes, upto);
        assert forall|i: int| 0 <= i < before.len() implies #[trigger] all[i] == before[i] by {}
        assert forall|i: int, j: int| 0 <= i < j < all.len() implies (#[trigger] all[i]).id->0 < (
        #[trigger] all[j]).id->0 by {
            assert(all[i] == before[i]);
            if j < before.len() {
                assert(all[j] == before[j]);
            }
        }
        assert forall|i: int| 0 <= i < all.len() implies {
            &&& (#[trigger] all[i]).id is Some
            &&& 1 <= all[i].id->0 <= upto
            &&& heroes.dom().contains(all[i].id->0)
            &&& all[i].name == heroes[all[i].id->0]
        } by {
            if i < before.len() {
                assert(all[i] == before[i]);
            }
        }
        assert forall|id: i32| 1 <= id <= upto && heroes.dom().contains(id) implies exists|i: int|
            0 <= i < all.len() && (#[trigger] all[i]).id == Some(id) by {
            if id == upto {
                assert(all[all.len() - 1].id == Some(id));
            } else {
                let i = choose|i: int| 0 <= i < before.len() && (#[trigger] before[i]).id == Some(id);
                assert(all[i] == before[i]);
            }
        }
    }
}

/// Creating lists the new record, once and last. On a well-formed table
/// that can still give out an id, the record that `create` returns has an
/// id that no record had before and that is greater than every id in the
/// table, it is the record at that id afterwards, and the listing
/// afterwards is the old listing followed by exactly that record: on a
/// table that listed nothing it is the whole listing.
pub proof fn lemma_created_hero_is_listed(table: TableView, name: Seq<char>)
    requires
        table.wf(),
        table.can_create(),
    ensures
        table.create(name).wf(),
        table.created(name).id is Some,
        table.created(name).name == name,
        !table.contains(table.created(name).id->0),
        forall|other: i32| #[trigger] table.contains(other) ==> other < table.created(name).id->0,
        table.create(name).contains(table.created(name).id->0),
        table.create(name).hero(table.created(name).id->0) == table.created(name),
        table.create(name).listing() == table.listing().push(table.created(name)),
        table.listing().len() == 0 ==> table.create(name).listing() == seq![table.created(name)],
{
    let after = table.create(name);
    assert(after.wf());
    lemma_listing_agrees(after.heroes, table.heroes, table.last_id);
    if table.listing().len() == 0 {
        assert(after.listing() =~= seq![table.created(name)]);
    }
}

/// Updating an id that the table does not hold reports `false` (the
/// result of `update` is `contains`) and leaves the table as it was: no
/// record is added, none is changed, and the listing is the same.
pub proof fn lemma_update_of_absent_id_changes_nothing(
    table: TableView,
    id: i32,
    name: Seq<char>,
)
    requires
        !table.contains(id),
    ensures
        table.update(id, name) == table,
        table.update(id, name).listing() == table.listing(),
        !table.update(id, name).contains(id),
{
}

/// Updating an id that the table holds overwrites that one record: the
/// record at `id` takes the new name and keeps its id, the table holds the
/// same ids as before, and every other record is as it was.
pub proof fn lemma_update_overwrites_one_record(table: TableView, id: i32, name: Seq<char>)
    requires
        table.wf(),
        table.contains(id),
    ensures
        table.update(id, name).wf(),
        table.update(id, name).last_id == table.last_id,
        table.update(id, name).hero(id) == (HeroView { id: Some(id), name }),
        forall|other: i32| #[trigger]
            table.update(id, name).contains(other) == table.contains(other),
        forall|other: i32|
            other != id ==> #[trigger] table.update(id, name).hero(other) == table.hero(other),
{
}

/// Deleting the same id twice finds it the first time and not the second.
/// On a table that holds `id`, the first `delete` reports `true` (its
/// result is `contains`); the table it leaves no longer holds `id`, so the
/// second reports `false` and changes nothing.
pub proof fn lemma_delete_twice(table: TableView, id: i32)
    requires
        table.wf(),
        table.contains(id),
    ensures
        table.delete(id).wf(),
        !table.delete(id).contains(id),
        table.delete(id).delete(id) == table.delete(id),
{
    assert(table.delete(id).delete(id).heroes =~= table.delete(id).heroes);
}

/// Deleting one record leaves every other record as it was, and deleting
/// an id that the table does not hold leaves the whole table as it was.
pub proof fn lemma_delete_keeps_the_others(table: TableView, id: i32)
    requires
        table.wf(),
    ensures
        table.delete(id).wf(),
        table.delete(id).last_id == table.last_id,
        forall|other: i32|
            other != id ==> #[trigger] table.delete(id).contains(other) == table.contains(other),
        forall|other: i32|
            other != id ==> #[trigger] table.delete(id).hero(other) == table.hero(other),
        !table.contains(id) ==> table.delete(id) == table,
{
    if !table.contains(id) {
        assert(table.delete(id).heroes =~= table.heroes);
    }
}

} // verus!
