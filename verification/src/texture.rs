//! The lattice of gradient noise: its shuffled tables, and the gradient at
//! a lattice point.

use crate::math::Vec3;
use crate::rng::shuffle;
use rand::rngs::SmallRng;
use vstd::prelude::*;

verus! {

/// The number of gradient vectors of the noise, and the period of its
/// lattice along each axis.
pub const PERLIN_POINT_COUNT: usize = 256;

/// The table that maps every place to itself.
pub open spec fn identity_table() -> Seq<usize> {
    Seq::new(PERLIN_POINT_COUNT as nat, |i: int| i as usize)
}

/// A table is a rearrangement of the places `0..256`.
pub open spec fn is_table(table: Seq<usize>) -> bool {
    table.len() == PERLIN_POINT_COUNT && table.to_multiset() == identity_table().to_multiset()
}

/// The place of a lattice coordinate in a table: the coordinate modulo the
/// period, counted upwards also for negative coordinates.
pub open spec fn wrapped(coordinate: int) -> int {
    coordinate % (PERLIN_POINT_COUNT as int)
}

/// The lattice of gradient noise: 256 gradient vectors, and for each axis a
/// rearrangement of `0..256` that scatters the lattice coordinates over them.
pub struct Perlin {
    rand_vec: Vec<Vec3>,
    perm_x: Vec<usize>,
    perm_y: Vec<usize>,
    perm_z: Vec<usize>,
}

impl Perlin {
    #[verifier::type_invariant]
    spec fn wf(&self) -> bool {
        &&& self.rand_vec@.len() == PERLIN_POINT_COUNT
        &&& is_table(self.perm_x@)
        &&& is_table(self.perm_y@)
        &&& is_table(self.perm_z@)
    }

    /// The gradient vectors.
    pub closed spec fn gradients(&self) -> Seq<Vec3> {
        self.rand_vec@
    }

    /// The table of the x axis.
    pub closed spec fn table_x(&self) -> Seq<usize> {
        self.perm_x@
    }

    /// The table of the y axis.
    pub closed spec fn table_y(&self) -> Seq<usize> {
        self.perm_y@
    }

    /// The table of the z axis.
    pub closed spec fn table_z(&self) -> Seq<usize> {
        self.perm_z@
    }

    /// The place among the gradients that belongs to a lattice point: the
    /// entries of the three tables at the wrapped coordinates, combined bit
    /// by bit with exclusive or.
    pub open spec fn lattice_index(&self, i: int, j: int, k: int) -> usize {
        self.table_x()[wrapped(i)] ^ self.table_y()[wrapped(j)] ^ self.table_z()[wrapped(k)]
    }

    /// A lattice over the given gradients. The table of the x axis is a
    /// shuffle of `0..256`, that of the y axis a shuffle of the x table, and
    /// that of the z axis a shuffle of the y table, all drawn from `rng`.
    /// Without exactly 256 gradients there is no lattice.
    pub fn new(gradients: Vec<Vec3>, rng: &mut SmallRng) -> (lattice: Option<Perlin>)
        ensures
            lattice.is_some() == (gradients@.len() == PERLIN_POINT_COUNT),
            lattice matches Some(p) ==> {
                &&& p.gradients() == gradients@
                &&& is_table(p.table_x())
                &&& is_table(p.table_y())
                &&& is_table(p.table_z())
            },
    {
        if gradients.len() != PERLIN_POINT_COUNT {
            return None;
        }
        let mut p: Vec<usize> = Vec::new();
        let mut i: usize = 0;
        while i < PERLIN_POINT_COUNT
            invariant
                i <= PERLIN_POINT_COUNT,
                p@.len() == i,
                forall|n: int| 0 <= n < i ==> p@[n] == n,
            decreases PERLIN_POINT_COUNT - i,
        {
            p.push(i);
            i += 1;
        }
        assert(p@ == identity_table());
        shuffle(&mut p, rng);
        let perm_x = copy_table(&p);
        shuffle(&mut p, rng);
        let perm_y = copy_table(&p);
        shuffle(&mut p, rng);
        let perm_z = p;
        Some(Perlin { rand_vec: gradients, perm_x, perm_y, perm_z })
    }

    /// The gradient vector at the lattice point `(i, j, k)`.
    pub fn corner(&self, i: isize, j: isize, k: isize) -> (gradient: Vec3)
        ensures
            self.lattice_index(i as int, j as int, k as int) < PERLIN_POINT_COUNT,
            gradient == self.gradients()[self.lattice_index(i as int, j as int, k as int) as int],
    {
        proof {
            use_type_invariant(self);
        }
        let a = self.perm_x[wrap(i)];
        let b = self.perm_y[wrap(j)];
        let c = self.perm_z[wrap(k)];
        proof {
            lemma_table_entries(self.perm_x@, wrapped(i as int));
            lemma_table_entries(self.perm_y@, wrapped(j as int));
            lemma_table_entries(self.perm_z@, wrapped(k as int));
            lemma_xor_stays_in_byte(a, b, c);
        }
        self.rand_vec[a ^ b ^ c]
    }
}

/// The place of a lattice coordinate in a table.
fn wrap(coordinate: isize) -> (place: usize)
    ensures
        place == wrapped(coordinate as int),
        place < PERLIN_POINT_COUNT,
{
    let remainder = coordinate.checked_rem_euclid(256);
    remainder.unwrap() as usize
}

/// A copy of a table.
fn copy_table(table: &Vec<usize>) -> (copy: Vec<usize>)
    ensures
        copy@ == table@,
{
    let mut copy: Vec<usize> = Vec::new();
    let mut i: usize = 0;
    while i < table.len()
        invariant
            i <= table.len(),
            copy@ == table@.take(i as int),
        decreases table.len() - i,
    {
        copy.push(table[i]);
        assert(table@.take(i + 1) == table@.take(i as int).push(table@[i as int]));
        i += 1;
    }
    assert(table@.take(i as int) == table@);
    copy
}

/// Every entry of a table is a place of the table.
pub proof fn lemma_table_entries(table: Seq<usize>, n: int)
    requires
        is_table(table),
        0 <= n < table.len(),
    ensures
        table[n] < PERLIN_POINT_COUNT,
{
    broadcast use vstd::seq_lib::group_to_multiset_ensures;

    assert(table.contains(table[n]));
    assert(table.to_multiset().count(table[n]) > 0);
    assert(identity_table().contains(table[n]));
}

/// The exclusive or of three numbers below 256 is below 256.
pub proof fn lemma_xor_stays_in_byte(a: usize, b: usize, c: usize)
    requires
        a < 256,
        b < 256,
        c < 256,
    ensures
        a ^ b ^ c < 256,
{
    assert(a ^ b ^ c < 256) by (bit_vector)
        requires
            a < 256,
            b < 256,
            c < 256,
    ;
}

} // verus!
