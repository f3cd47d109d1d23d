//! The dimensions of the system and the graph of links between them.
//!
//! There are at most seven dimensions, with indices 1 to 7 in order. Each
//! links to dimensions of strictly smaller index only, so the links form an
//! acyclic graph and index order is a topological order of it. A cycle
//! recomputes the dimensions in that order, each from the values that its
//! linked dimensions hold in the same cycle.
//!
//! The field values are of any type `V`; what a dimension's new value is,
//! given its index and its inputs, is the caller's function.

use vstd::prelude::*;

verus! {

/// The number of dimensions of an initialized system.
pub const DIMENSION_COUNT: usize = 7;

/// The fixed link table: the indices that dimension `index` links to.
/// Dimension 2 links to 1, dimension 3 to 1 and 2, the others to none.
pub open spec fn initial_links_of(index: int) -> Seq<u8> {
    if index == 2 {
        seq![1u8]
    } else if index == 3 {
        seq![1u8, 2u8]
    } else {
        Seq::empty()
    }
}

/// Links of the dimension at position `position` (index `position + 1`) are
/// indices of earlier dimensions.
pub open spec fn links_point_back(links: Seq<u8>, position: int) -> bool {
    forall|j: int| 0 <= j < links.len() ==> 1 <= #[trigger] links[j] <= position
}

/// The values that a dimension with these links reads from `fields`.
pub open spec fn linked_values<V>(fields: Seq<V>, links: Seq<u8>) -> Seq<V> {
    links.map_values(|l: u8| fields[l - 1])
}

/// `out` is a value that `f` returns for dimension `index` on `inputs`.
pub open spec fn computed_by<V, F: Fn(usize, Vec<V>) -> V>(
    f: F,
    index: int,
    inputs: Seq<V>,
    out: V,
) -> bool {
    exists|v: Vec<V>| v@ == inputs && #[trigger] f.ensures((index as usize, v), out)
}

/// Every dimension of `fields` holds what `f` returns for its index on the
/// values that its linked dimensions hold in `fields` itself: what one cycle
/// leaves behind.
pub open spec fn is_propagation<V, F: Fn(usize, Vec<V>) -> V>(
    fields: Seq<V>,
    links: Seq<Seq<u8>>,
    f: F,
) -> bool {
    forall|p: int|
        0 <= p < fields.len() ==> computed_by(
            f,
            p + 1,
            linked_values(fields, links[p]),
            #[trigger] fields[p],
        )
}

/// The link table of `initial_links`, one entry per dimension.
pub open spec fn link_table() -> Seq<Seq<u8>> {
    Seq::new(DIMENSION_COUNT as nat, |p: int| initial_links_of(p + 1))
}

/// The links of dimension `index` in the fixed link table.
pub fn initial_links(index: u8) -> (r: Vec<u8>)
    ensures
        r@ == initial_links_of(index as int),
{
    if index == 2 {
        vec![1u8]
    } else if index == 3 {
        vec![1u8, 2u8]
    } else {
        Vec::new()
    }
}

/// The dimensions of a system: one field value and one list of links each.
pub struct DimensionGraph<V> {
    fields: Vec<V>,
    links: Vec<Vec<u8>>,
}

impl<V: Copy> DimensionGraph<V> {
    /// Field values by position (index minus one).
    pub closed spec fn fields(&self) -> Seq<V> {
        self.fields@
    }

    /// Links by position.
    pub closed spec fn links(&self) -> Seq<Seq<u8>> {
        self.links@.map_values(|l: Vec<u8>| l@)
    }

    /// At most seven dimensions, one link list each, every link pointing to
    /// an earlier dimension.
    pub open spec fn wf(&self) -> bool {
        &&& self.fields().len() == self.links().len()
        &&& self.fields().len() <= DIMENSION_COUNT
        &&& forall|p: int| 0 <= p < self.links().len() ==> links_point_back(#[trigger] self.links()[p], p)
    }

    /// A system with no dimensions yet.
    pub fn new() -> (r: DimensionGraph<V>)
        ensures
            r.wf(),
            r.fields().len() == 0,
    {
        let r = DimensionGraph { fields: Vec::new(), links: Vec::new() };
        assert(r.links() =~= Seq::<Seq<u8>>::empty());
        r
    }

    /// The number of dimensions.
    pub fn len(&self) -> (r: usize)
        ensures
            r == self.fields().len(),
    {
        self.fields.len()
    }

    /// Creates the seven dimensions, dimension `i` with the value that
    /// `init` returns for `i`, and links them by the fixed link table. Made
    /// once, on a system with no dimensions.
    pub fn initialize<F: Fn(u8) -> V>(&mut self, init: F)
        requires
            old(self).wf(),
            old(self).fields().len() == 0,
            forall|index: u8| init.requires((index,)),
        ensures
            final(self).wf(),
            final(self).fields().len() == DIMENSION_COUNT,
            final(self).links() == link_table(),
            forall|p: int|
                0 <= p < DIMENSION_COUNT ==> init.ensures(((p + 1) as u8,), #[trigger] final(self).fields()[p]),
    {
        let mut i: u8 = 1;
        while i <= DIMENSION_COUNT as u8
            invariant
                1 <= i <= DIMENSION_COUNT + 1,
                self.fields().len() == i - 1,
                self.links().len() == i - 1,
                forall|index: u8| init.requires((index,)),
                forall|p: int| 0 <= p < i - 1 ==> init.ensures(((p + 1) as u8,), #[trigger] self.fields()[p]),
                forall|p: int| 0 <= p < i - 1 ==> #[trigger] self.links()[p] == initial_links_of(p + 1),
            decreases DIMENSION_COUNT + 1 - i,
        {
            let ghost links_before = self.links();
            let v = init(i);
            self.fields.push(v);
            self.links.push(initial_links(i));
            assert(self.links() =~= links_before.push(initial_links_of(i as int)));
            i = i + 1;
        }
        assert(self.links() =~= link_table());
        assert forall|p: int| 0 <= p < self.links().len() implies links_point_back(
            #[trigger] self.links()[p],
            p,
        ) by {
            assert(self.links()[p] == initial_links_of(p + 1));
        }
    }

    /// The value of dimension `index`, absent unless `1 <= index <= len()`.
    pub fn read(&self, index: usize) -> (r: Option<V>)
        ensures
            r is Some <==> 1 <= index <= self.fields().len(),
            r matches Some(v) ==> v == self.fields()[index - 1],
    {
        if index > 0 && index <= self.fields.len() {
            Some(self.fields[index - 1])
        } else {
            None
        }
    }

    /// The indices that dimension `index` links to, absent unless
    /// `1 <= index <= len()`.
    pub fn linked_indices(&self, index: usize) -> (r: Option<Vec<u8>>)
        requires
            self.wf(),
        ensures
            r is Some <==> 1 <= index <= self.fields().len(),
            r matches Some(l) ==> l@ == self.links()[index - 1],
    {
        if index > 0 && index <= self.links.len() {
            Some(self.links[index - 1].clone())
        } else {
            None
        }
    }

    /// The values that the dimension at `position` reads, in link order.
    fn linked_inputs(&self, position: usize) -> (r: Vec<V>)
        requires
            self.wf(),
            position < self.fields().len(),
        ensures
            r@ == linked_values(self.fields(), self.links()[position as int]),
    {
        let links = &self.links[position];
        assert(links@ == self.links()[position as int]);
        let mut r: Vec<V> = Vec::new();
        let mut j: usize = 0;
        while j < links.len()
            invariant
                self.wf(),
                position < self.fields().len(),
                links@ == self.links()[position as int],
                j <= links@.len(),
                r@ =~= linked_values(self.fields(), links@.subrange(0, j as int)),
            decreases links@.len() - j,
        {
            let l = links[j];
            assert(links_point_back(self.links()[position as int], position as int));
            assert(1 <= links@[j as int] <= position);
            r.push(self.fields[(l - 1) as usize]);
            assert(links@.subrange(0, j + 1 as int) =~= links@.subrange(0, j as int).push(l));
            j = j + 1;
        }
        assert(links@.subrange(0, j as int) =~= links@);
        r
    }

    /// One cycle of propagation: every dimension, in increasing index
    /// order, gets what `f` returns for its index and the values of its
    /// linked dimensions. Links point to earlier dimensions only, so those
    /// values are the ones computed in this same cycle.
    pub fn propagate<F: Fn(usize, Vec<V>) -> V>(&mut self, f: F)
        requires
            old(self).wf(),
            forall|index: usize, inputs: Vec<V>| f.requires((index, inputs)),
        ensures
            final(self).wf(),
            final(self).links() == old(self).links(),
            final(self).fields().len() == old(self).fields().len(),
            is_propagation(final(self).fields(), final(self).links(), f),
    {
        let n = self.fields.len();
        let mut p: usize = 0;
        while p < n
            invariant
                self.wf(),
                n == self.fields().len(),
                self.links() == old(self).links(),
                p <= n,
                forall|index: usize, inputs: Vec<V>| f.requires((index, inputs)),
                forall|q: int|
                    0 <= q < p ==> computed_by(
                        f,
                        q + 1,
                        linked_values(self.fields(), self.links()[q]),
                        #[trigger] self.fields()[q],
                    ),
            decreases n - p,
        {
            let inputs = self.linked_inputs(p);
            let ghost seen = inputs@;
            let ghost before = self.fields();
            let v = f(p + 1, inputs);
            assert(computed_by(f, p + 1, seen, v));
            self.fields.set(p, v);
            proof {
                assert forall|q: int| 0 <= q <= p implies linked_values(self.fields(), self.links()[q])
                    == linked_values(before, self.links()[q]) by {
                    assert(links_point_back(self.links()[q], q));
                    assert(linked_values(self.fields(), self.links()[q]) =~= linked_values(
                        before,
                        self.links()[q],
                    ));
                }
                assert forall|q: int| 0 <= q < p + 1 implies computed_by(
                    f,
                    q + 1,
                    linked_values(self.fields(), self.links()[q]),
                    #[trigger] self.fields()[q],
                ) by {
                    if q < p {
                        assert(self.fields()[q] == before[q]);
                    }
                }
            }
            p = p + 1;
        }
    }
}

/// After a cycle over the fixed link table, dimension 3 holds what the
/// cycle's function returns for index 3 on the values that dimensions 1 and 2
/// hold after that same cycle; dimension 2 reads dimension 1 alone, and the
/// other dimensions read nothing.
pub proof fn lemma_dependency_ordering<V, F: Fn(usize, Vec<V>) -> V>(fields: Seq<V>, f: F)
    requires
        fields.len() == DIMENSION_COUNT,
        is_propagation(fields, link_table(), f),
    ensures
        computed_by(f, 3, seq![fields[0], fields[1]], fields[2]),
        computed_by(f, 2, seq![fields[0]], fields[1]),
        forall|p: int|
            0 <= p < DIMENSION_COUNT && p != 1 && p != 2 ==> computed_by(
                f,
                p + 1,
                Seq::empty(),
                #[trigger] fields[p],
            ),
{
    let table = link_table();
    assert(linked_values(fields, table[2]) =~= seq![fields[0], fields[1]]);
    assert(computed_by(f, 3, linked_values(fields, table[2]), fields[2]));
    assert(linked_values(fields, table[1]) =~= seq![fields[0]]);
    assert(computed_by(f, 2, linked_values(fields, table[1]), fields[1]));
    assert forall|p: int|
        0 <= p < DIMENSION_COUNT && p != 1 && p != 2 implies computed_by(
            f,
            p + 1,
            Seq::empty(),
            #[trigger] fields[p],
        ) by {
        assert(linked_values(fields, table[p]) =~= Seq::<V>::empty());
        assert(computed_by(f, p + 1, linked_values(fields, table[p]), fields[p]));
    }
}

} // verus!
