//! The store: triples in the order of their insertion, none twice, with an
//! index from each predicate to the positions of its triples.

use crate::term::{TermView, Triple, TripleView};
use crate::text::{lemma_views_index, lemma_views_push, views};
use vstd::hash_map::StringHashMap;
use vstd::prelude::*;

verus! {

/// Whether the predicate of `triple` is the identifier `name`.
pub open spec fn has_predicate(triple: TripleView, name: Seq<char>) -> bool {
    triple.predicate == TermView::Identifier(name)
}

/// The triples whose predicate is the identifier `name`, in their order.
pub open spec fn with_predicate(triples: Seq<TripleView>, name: Seq<char>) -> Seq<TripleView> {
    triples.filter(|triple: TripleView| has_predicate(triple, name))
}

/// `triples` after the insertion of `triple`: unchanged where it is there
/// already, longer by it at the end where it is not.
pub open spec fn insert_one(triples: Seq<TripleView>, triple: TripleView) -> Seq<TripleView> {
    if triples.contains(triple) {
        triples
    } else {
        triples.push(triple)
    }
}

/// `triples` after the insertion of each item of `more`, in order.
pub open spec fn insert_all(triples: Seq<TripleView>, more: Seq<TripleView>) -> Seq<TripleView>
    decreases more.len(),
{
    if more.len() == 0 {
        triples
    } else {
        insert_one(insert_all(triples, more.drop_last()), more.last())
    }
}

/// The positions, in rising order, of the triples whose predicate is `name`.
pub open spec fn positions_of(triples: Seq<TripleView>, name: Seq<char>) -> Seq<usize>
    decreases triples.len(),
{
    if triples.len() == 0 {
        Seq::empty()
    } else {
        let before = positions_of(triples.drop_last(), name);
        if has_predicate(triples.last(), name) {
            before.push((triples.len() - 1) as usize)
        } else {
            before
        }
    }
}

/// The triples that stand at `positions`.
pub open spec fn pick(triples: Seq<TripleView>, positions: Seq<usize>) -> Seq<TripleView> {
    Seq::new(positions.len(), |k: int| triples[positions[k] as int])
}

proof fn lemma_positions_sound(triples: Seq<TripleView>, name: Seq<char>)
    requires
        triples.len() <= usize::MAX,
    ensures
        forall|k: int|
            0 <= k < positions_of(triples, name).len() ==> {
                &&& (#[trigger] positions_of(triples, name)[k]) < triples.len()
                &&& has_predicate(triples[positions_of(triples, name)[k] as int], name)
            },
    decreases triples.len(),
{
    if triples.len() > 0 {
        let before = positions_of(triples.drop_last(), name);
        lemma_positions_sound(triples.drop_last(), name);
        assert forall|k: int| 0 <= k < positions_of(triples, name).len() implies {
            &&& (#[trigger] positions_of(triples, name)[k]) < triples.len()
            &&& has_predicate(triples[positions_of(triples, name)[k] as int], name)
        } by {
            if k < before.len() {
                assert(positions_of(triples, name)[k] == before[k]);
                assert(triples[before[k] as int] == triples.drop_last()[before[k] as int]);
            }
        }
    }
}

proof fn lemma_positions_complete(triples: Seq<TripleView>, name: Seq<char>, i: int)
    requires
        triples.len() <= usize::MAX,
        0 <= i < triples.len(),
        has_predicate(triples[i], name),
    ensures
        positions_of(triples, name).contains(i as usize),
    decreases triples.len(),
{
    let before = positions_of(triples.drop_last(), name);
    if i == triples.len() - 1 {
        assert(before.push(i as usize)[before.len() as int] == i as usize);
    } else {
        lemma_positions_complete(triples.drop_last(), name, i);
        let k = choose|k: int| 0 <= k < before.len() && before[k] == i as usize;
        assert(positions_of(triples, name)[k] == i as usize);
    }
}

proof fn lemma_positions_pick(triples: Seq<TripleView>, name: Seq<char>)
    requires
        triples.len() <= usize::MAX,
    ensures
        pick(triples, positions_of(triples, name)) == with_predicate(triples, name),
    decreases triples.len(),
{
    let keep = |triple: TripleView| has_predicate(triple, name);
    if triples.len() == 0 {
        reveal(Seq::filter);
        assert(pick(triples, positions_of(triples, name)) =~= triples.filter(keep));
    } else {
        let front = triples.drop_last();
        lemma_positions_pick(front, name);
        lemma_positions_sound(front, name);
        front.lemma_filter_push(triples.last(), keep);
        assert(front.push(triples.last()) =~= triples);
        assert(pick(triples, positions_of(triples, name)) =~= triples.filter(keep));
    }
}

proof fn lemma_positions_push(triples: Seq<TripleView>, triple: TripleView, name: Seq<char>)
    ensures
        positions_of(triples.push(triple), name) == if has_predicate(triple, name) {
            positions_of(triples, name).push(triples.len() as usize)
        } else {
            positions_of(triples, name)
        },
{
    assert(triples.push(triple).drop_last() =~= triples);
}

/// The index agrees with the triples: each predicate that occurs has a
/// bucket with exactly the positions of its triples, in rising order.
spec fn indexed(
    triples: Seq<TripleView>,
    slots: Map<Seq<char>, usize>,
    buckets: Seq<Vec<usize>>,
) -> bool {
    &&& forall|name: Seq<char>| #[trigger]
        slots.contains_key(name) ==> {
            &&& slots[name] < buckets.len()
            &&& buckets[slots[name] as int]@ == positions_of(triples, name)
            &&& positions_of(triples, name).len() > 0
        }
    &&& forall|name: Seq<char>|
        !(#[trigger] slots.contains_key(name)) ==> positions_of(triples, name).len() == 0
}

/// No triple stands twice, and each has a subject that is no literal and a
/// predicate that is an identifier.
pub open spec fn well_kept(triples: Seq<TripleView>) -> bool {
    &&& triples.no_duplicates()
    &&& forall|i: int| 0 <= i < triples.len() ==> (#[trigger] triples[i]).well_formed()
}

fn find(triples: &Vec<Triple>, positions: &Vec<usize>, triple: &Triple) -> (held: bool)
    requires
        positions@ == positions_of(views(triples@), triple@.predicate->Identifier_0),
        triple@.predicate is Identifier,
    ensures
        held == views(triples@).contains(triple@),
{
    let ghost held = views(triples@);
    let ghost name = triple@.predicate->Identifier_0;
    proof {
        lemma_views_index(triples@);
        assert(held.len() == triples.len());
        lemma_positions_sound(held, name);
        if held.contains(triple@) {
            let i = choose|i: int| 0 <= i < held.len() && held[i] == triple@;
            lemma_positions_complete(held, name, i);
        }
    }
    let mut k: usize = 0;
    while k < positions.len()
        invariant
            k <= positions.len(),
            held == views(triples@),
            forall|j: int| 0 <= j < positions.len() ==> (#[trigger] positions[j]) < triples.len(),
            forall|j: int| 0 <= j < k ==> held[(#[trigger] positions[j]) as int] != triple@,
        decreases positions.len() - k,
    {
        if triples[positions[k]] == *triple {
            assert(held[positions[k as int] as int] == triple@);
            return true;
        }
        k += 1;
    }
    false
}

fn append(
    triples: &mut Vec<Triple>,
    slots: &mut StringHashMap<usize>,
    buckets: &mut Vec<Vec<usize>>,
    triple: Triple,
) -> (inserted: bool)
    requires
        well_kept(views(old(triples)@)),
        indexed(views(old(triples)@), old(slots)@, old(buckets)@),
    ensures
        well_kept(views(final(triples)@)),
        indexed(views(final(triples)@), final(slots)@, final(buckets)@),
        inserted == !views(old(triples)@).contains(triple@),
        views(final(triples)@) == insert_one(views(old(triples)@), triple@),
{
    let name = triple.predicate_name().clone();
    let ghost held = views(triples@);
    let ghost added = triple@;
    let ghost before = slots@;
    let position = triples.len();
    proof {
        lemma_views_index(triples@);
        lemma_views_push(triples@, triple);
        lemma_positions_sound(held, name@);
    }
    match slots.get(name.as_str()) {
        Some(slot) => {
            let slot = *slot;
            if find(triples, &buckets[slot], &triple) {
                return false;
            }
            buckets[slot].push(position);
            proof {
                assert forall|other: Seq<char>|
                    before.contains_key(other) && other != name@ implies before[other]
                    != slot by {
                    lemma_positions_sound(held, other);
                    if before[other] == slot {
                        assert(has_predicate(held[positions_of(held, other)[0] as int], other));
                        assert(has_predicate(held[positions_of(held, name@)[0] as int], name@));
                    }
                }
            }
        },
        None => {
            proof {
                if held.contains(added) {
                    let i = choose|i: int| 0 <= i < held.len() && held[i] == added;
                    lemma_positions_complete(held, name@, i);
                }
            }
            let mut bucket: Vec<usize> = Vec::new();
            bucket.push(position);
            let slot = buckets.len();
            buckets.push(bucket);
            slots.insert(name, slot);
            proof {
                assert(buckets[slot as int]@ =~= positions_of(held, name@).push(position));
            }
        },
    }
    triples.push(triple);
    proof {
        let kept = views(triples@);
        assert(kept == held.push(added));
        assert forall|other: Seq<char>| #[trigger] slots@.contains_key(other) implies {
            &&& slots@[other] < buckets.len()
            &&& buckets[slots@[other] as int]@ == positions_of(kept, other)
            &&& positions_of(kept, other).len() > 0
        } by {
            lemma_positions_push(held, added, other);
            if other != name@ {
                assert(before.contains_key(other));
            }
        }
        assert forall|other: Seq<char>| !(#[trigger] slots@.contains_key(other)) implies
            positions_of(kept, other).len() == 0 by {
            lemma_positions_push(held, added, other);
            assert(!before.contains_key(other));
        }
    }
    true
}

/// The triples held, in insertion order and without repetition.
pub struct Store {
    triples: Vec<Triple>,
    slots: StringHashMap<usize>,
    buckets: Vec<Vec<usize>>,
}

impl View for Store {
    type V = Seq<TripleView>;

    closed spec fn view(&self) -> Seq<TripleView> {
        views(self.triples@)
    }
}

impl Store {
    #[verifier::type_invariant]
    spec fn kept(self) -> bool {
        &&& well_kept(views(self.triples@))
        &&& indexed(views(self.triples@), self.slots@, self.buckets@)
    }

    /// An empty store.
    pub fn new() -> (store: Store)
        ensures
            store@ == Seq::<TripleView>::empty(),
    {
        let store = Store { triples: Vec::new(), slots: StringHashMap::new(), buckets: Vec::new() };
        assert(store@ =~= Seq::<TripleView>::empty());
        store
    }

    /// The number of triples held.
    pub fn len(&self) -> (count: usize)
        ensures
            count == self@.len(),
    {
        self.triples.len()
    }

    /// All triples, in insertion order: none stands twice, and each has a
    /// subject that is no literal and a predicate that is an identifier.
    pub fn all(&self) -> (triples: &Vec<Triple>)
        ensures
            views(triples@) == self@,
            well_kept(self@),
    {
        proof {
            use_type_invariant(self);
        }
        &self.triples
    }

    /// Whether `triple` is held.
    pub fn contains(&self, triple: &Triple) -> (held: bool)
        ensures
            held == self@.contains(triple@),
    {
        proof {
            use_type_invariant(self);
        }
        let name = triple.predicate_name();
        match self.slots.get(name.as_str()) {
            Some(slot) => find(&self.triples, &self.buckets[*slot], triple),
            None => {
                proof {
                    lemma_views_index(self.triples@);
                    assert(self@.len() == self.triples.len());
                    if self@.contains(triple@) {
                        let i = choose|i: int| 0 <= i < self@.len() && self@[i] == triple@;
                        lemma_positions_complete(self@, name@, i);
                    }
                }
                false
            },
        }
    }

    /// Adds `triple` at the end unless it is held already, and says
    /// whether the store changed.
    pub fn insert(&mut self, triple: Triple) -> (inserted: bool)
        ensures
            inserted == !old(self)@.contains(triple@),
            final(self)@ == insert_one(old(self)@, triple@),
            final(self)@.contains(triple@),
    {
        proof {
            use_type_invariant(&*self);
            lemma_insert_twice(self@, triple@);
        }
        let mut taken = Store::new();
        core::mem::swap(self, &mut taken);
        let Store { mut triples, mut slots, mut buckets } = taken;
        let inserted = append(&mut triples, &mut slots, &mut buckets, triple);
        *self = Store { triples, slots, buckets };
        inserted
    }

    /// Inserts each of `triples`, in order.
    pub fn insert_all(&mut self, triples: Vec<Triple>)
        ensures
            final(self)@ == insert_all(old(self)@, views(triples@)),
    {
        let ghost more = views(triples@);
        for triple in it: triples
            invariant
                views(it.seq()) == more,
                self@ == insert_all(old(self)@, more.take(it.index())),
        {
            assert(more.take(it.index() + 1).drop_last() =~= more.take(it.index()));
            self.insert(triple);
        }
        assert(more.take(more.len() as int) =~= more);
    }

    /// The triples whose predicate is the identifier `name`, in insertion order.
    pub fn by_predicate(&self, name: &str) -> (found: Vec<&Triple>)
        ensures
            views(found@) == with_predicate(self@, name@),
    {
        let mut found: Vec<&Triple> = Vec::new();
        proof {
            use_type_invariant(self);
            lemma_views_index(self.triples@);
            assert(self@.len() == self.triples.len());
            lemma_positions_sound(self@, name@);
            lemma_positions_pick(self@, name@);
        }
        match self.slots.get(name) {
            Some(slot) => {
                let positions = &self.buckets[*slot];
                let mut k: usize = 0;
                assert(views(found@) =~= pick(self@, positions@.take(0)));
                while k < positions.len()
                    invariant
                        k <= positions.len(),
                        positions@ == positions_of(self@, name@),
                        forall|j: int|
                            0 <= j < positions.len() ==> (#[trigger] positions[j])
                                < self.triples.len(),
                        views(found@) == pick(self@, positions@.take(k as int)),
                    decreases positions.len() - k,
                {
                    let ghost before = found@;
                    found.push(&self.triples[positions[k]]);
                    proof {
                        lemma_views_push(before, found@.last());
                        assert(views(found@) =~= pick(self@, positions@.take(k + 1)));
                    }
                    k += 1;
                }
                assert(positions@.take(k as int) =~= positions@);
            },
            None => {
                assert(views(found@) =~= pick(self@, positions_of(self@, name@)));
            },
        }
        found
    }
}

/// Inserting a triple a second time changes nothing: neither the triples
/// held nor their number.
pub proof fn lemma_insert_twice(triples: Seq<TripleView>, triple: TripleView)
    ensures
        insert_one(triples, triple).contains(triple),
        insert_one(insert_one(triples, triple), triple) == insert_one(triples, triple),
        insert_one(insert_one(triples, triple), triple).len() == insert_one(triples, triple).len(),
{
    if !triples.contains(triple) {
        assert(triples.push(triple)[triples.len() as int] == triple);
    }
    assert(insert_one(triples, triple).contains(triple));
}

/// Insertion only adds at the end: what was held stays where it was.
pub proof fn lemma_insert_all_extends(triples: Seq<TripleView>, more: Seq<TripleView>)
    ensures
        triples.is_prefix_of(insert_all(triples, more)),
    decreases more.len(),
{
    if more.len() > 0 {
        lemma_insert_all_extends(triples, more.drop_last());
    }
}

/// Insertion never makes a triple stand twice.
pub proof fn lemma_insert_all_distinct(triples: Seq<TripleView>, more: Seq<TripleView>)
    requires
        triples.no_duplicates(),
    ensures
        insert_all(triples, more).no_duplicates(),
    decreases more.len(),
{
    if more.len() > 0 {
        lemma_insert_all_distinct(triples, more.drop_last());
    }
}

/// After the insertion of a sequence of triples each of them is held.
pub proof fn lemma_insert_all_holds(triples: Seq<TripleView>, more: Seq<TripleView>, i: int)
    requires
        0 <= i < more.len(),
    ensures
        insert_all(triples, more).contains(more[i]),
    decreases more.len(),
{
    let before = insert_all(triples, more.drop_last());
    let after = insert_all(triples, more);
    if i == more.len() - 1 {
        if !before.contains(more.last()) {
            assert(after[before.len() as int] == more.last());
        }
    } else {
        lemma_insert_all_holds(triples, more.drop_last(), i);
        let j = choose|j: int| 0 <= j < before.len() && before[j] == more[i];
        assert(after[j] == more[i]);
    }
}

/// The insertion of triples that are all held changes nothing.
pub proof fn lemma_insert_all_held(triples: Seq<TripleView>, more: Seq<TripleView>)
    requires
        forall|i: int| 0 <= i < more.len() ==> triples.contains(#[trigger] more[i]),
    ensures
        insert_all(triples, more) == triples,
    decreases more.len(),
{
    if more.len() > 0 {
        assert forall|i: int| 0 <= i < more.drop_last().len() implies triples.contains(
            #[trigger] more.drop_last()[i],
        ) by {
            assert(more.drop_last()[i] == more[i]);
        }
        lemma_insert_all_held(triples, more.drop_last());
        assert(triples.contains(more[more.len() - 1]));
    }
}

/// Inserting the same sequence of triples a second time changes nothing:
/// neither the triples held nor their number.
pub proof fn lemma_insert_all_twice(triples: Seq<TripleView>, more: Seq<TripleView>)
    ensures
        insert_all(insert_all(triples, more), more) == insert_all(triples, more),
        insert_all(insert_all(triples, more), more).len() == insert_all(triples, more).len(),
{
    assert forall|i: int| 0 <= i < more.len() implies insert_all(triples, more).contains(
        #[trigger] more[i],
    ) by {
        lemma_insert_all_holds(triples, more, i);
    }
    lemma_insert_all_held(insert_all(triples, more), more);
}

/// Inserting triples that are all different and not held adds them all,
/// in their order: the store grows by as many as they are.
pub proof fn lemma_insert_all_new(triples: Seq<TripleView>, more: Seq<TripleView>)
    requires
        more.no_duplicates(),
        forall|i: int| 0 <= i < more.len() ==> !triples.contains(#[trigger] more[i]),
    ensures
        insert_all(triples, more) == triples + more,
        insert_all(triples, more).len() == triples.len() + more.len(),
    decreases more.len(),
{
    if more.len() > 0 {
        let front = more.drop_last();
        assert forall|i: int| 0 <= i < front.len() implies !triples.contains(
            #[trigger] front[i],
        ) by {
            assert(front[i] == more[i]);
        }
        lemma_insert_all_new(triples, front);
        let before = triples + front;
        if before.contains(more.last()) {
            let j = choose|j: int| 0 <= j < before.len() && before[j] == more.last();
            if j < triples.len() {
                assert(triples[j] == more[more.len() - 1]);
            } else {
                assert(more[j - triples.len()] == more[more.len() - 1]);
            }
        }
        assert(before.push(more.last()) =~= triples + more);
    } else {
        assert(triples + more =~= triples);
    }
}

} // verus!
