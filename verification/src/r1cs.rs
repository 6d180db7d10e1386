//! Relaxed rank-1 constraint systems: shapes, instances, witnesses, and the
//! check that an instance and a witness satisfy a shape.
//!
//! A shape holds three sparse matrices `A`, `B`, `C` with one row per
//! constraint and one column per entry of the assignment `z = (W, u, X)`.
//! A relaxed instance and witness satisfy it when, in every row,
//! `(Az) * (Bz) = u * (Cz) + E`, and the instance holds the commitments to
//! `W` and to `E`.

use vstd::prelude::*;
use vstd::arithmetic::div_mod::{lemma_add_mod_noop, lemma_add_mod_noop_right, lemma_small_mod};
use crate::errors::NovaError;
use crate::little_endian::{append_bytes, append_count, le_bytes, lemma_le_bytes_of_value};
use crate::provider::util::msm::values;
use crate::traits::commitment::{commit, commitment, Commitment, CommitmentKey};
use crate::traits::{DlogGroup, Engine, PrimeField};

verus! {

/// A matrix over a field, held as the list of its entries that are not
/// zero: row, column, value. An entry named twice counts twice.
pub struct SparseMatrix<F: PrimeField> {
    rows: usize,
    cols: usize,
    entries: Vec<(usize, usize, F)>,
}

/// The sum of `value * z[column]` over those of the first `k` entries that
/// lie in `row`, not reduced.
pub open spec fn row_sum(entries: Seq<(nat, nat, nat)>, z: Seq<nat>, row: nat, k: nat) -> nat
    decreases k,
{
    if k == 0 {
        0
    } else {
        let entry = entries[k - 1];
        row_sum(entries, z, row, (k - 1) as nat) + if entry.0 == row {
            entry.2 * z[entry.1 as int]
        } else {
            0
        }
    }
}

/// Entry `row` of the product of a matrix with the vector `z`, in the field
/// `F`.
pub open spec fn product_entry<F: PrimeField>(entries: Seq<(nat, nat, nat)>, z: Seq<nat>, row: nat) -> nat {
    row_sum(entries, z, row, entries.len()) % F::modulus()
}

/// Whether every entry of a list lies inside a matrix of the given size.
pub open spec fn entries_fit<F: PrimeField>(entries: Seq<(usize, usize, F)>, rows: nat, cols: nat) -> bool {
    forall|k: int| 0 <= k < entries.len() ==> (#[trigger] entries[k]).0 < rows && entries[k].1 < cols
}

/// The rows, columns and values of a list of entries.
pub open spec fn entry_values<F: PrimeField>(entries: Seq<(usize, usize, F)>) -> Seq<(nat, nat, nat)> {
    Seq::new(
        entries.len(),
        |k: int| (entries[k].0 as nat, entries[k].1 as nat, entries[k].2.value()),
    )
}

/// The first `k` entries of a matrix, laid out as bytes: for each entry
/// its row and its column in eight bytes each, and its value in 32.
pub open spec fn entries_encoding(entries: Seq<(nat, nat, nat)>, k: nat) -> Seq<u8>
    decreases k,
{
    if k == 0 {
        Seq::empty()
    } else {
        let entry = entries[k - 1];
        entries_encoding(entries, (k - 1) as nat) + le_bytes(entry.0, 8) + le_bytes(entry.1, 8)
            + le_bytes(entry.2, 32)
    }
}

/// A matrix laid out as bytes: the number of its entries, then the
/// entries.
pub open spec fn matrix_encoding(entries: Seq<(nat, nat, nat)>) -> Seq<u8> {
    le_bytes(entries.len(), 8) + entries_encoding(entries, entries.len())
}

fn check_entries<F: PrimeField>(entries: &Vec<(usize, usize, F)>, rows: usize, cols: usize) -> (r: bool)
    ensures
        r == entries_fit(entries@, rows as nat, cols as nat),
{
    let mut k: usize = 0;
    while k < entries.len()
        invariant
            k <= entries@.len(),
            forall|j: int| 0 <= j < k ==> (#[trigger] entries@[j]).0 < rows && entries@[j].1 < cols,
        decreases entries@.len() - k,
    {
        let entry = entries[k];
        if entry.0 >= rows || entry.1 >= cols {
            return false;
        }
        k = k + 1;
    }
    true
}

impl<F: PrimeField> SparseMatrix<F> {
    #[verifier::type_invariant]
    spec fn entries_inside(self) -> bool {
        entries_fit(self.entries@, self.rows as nat, self.cols as nat)
    }

    /// The number of rows.
    pub closed spec fn rows(&self) -> nat {
        self.rows as nat
    }

    /// The number of columns.
    pub closed spec fn cols(&self) -> nat {
        self.cols as nat
    }

    /// The entries: row, column, value.
    pub closed spec fn entries(&self) -> Seq<(nat, nat, nat)> {
        entry_values(self.entries@)
    }

    /// A matrix of the given size with the given entries. Entries outside
    /// the matrix are refused.
    pub fn new(rows: usize, cols: usize, entries: Vec<(usize, usize, F)>) -> (r: Result<Self, NovaError>)
        ensures
            !entries_fit(entries@, rows as nat, cols as nat) ==> r is Err && r->Err_0
                == NovaError::InvalidIndex,
            entries_fit(entries@, rows as nat, cols as nat) ==> r is Ok && r->Ok_0.rows() == rows
                && r->Ok_0.cols() == cols && r->Ok_0.entries() == entry_values(entries@),
    {
        if check_entries(&entries, rows, cols) {
            Ok(SparseMatrix { rows, cols, entries })
        } else {
            Err(NovaError::InvalidIndex)
        }
    }

    /// Appends the matrix, laid out as bytes.
    pub fn write_to(&self, out: &mut Vec<u8>)
        ensures
            final(out)@ == old(out)@ + matrix_encoding(self.entries()),
    {
        let ghost list = self.entries();
        append_count(out, self.entries.len());
        let mut k: usize = 0;
        while k < self.entries.len()
            invariant
                k <= self.entries@.len(),
                list == entry_values(self.entries@),
                out@ == old(out)@ + le_bytes(list.len(), 8) + entries_encoding(list, k as nat),
            decreases self.entries@.len() - k,
        {
            let entry = self.entries[k];
            let ghost before = out@;
            append_count(out, entry.0);
            append_count(out, entry.1);
            let value = entry.2.to_bytes();
            append_bytes(out, value.as_slice());
            proof {
                lemma_le_bytes_of_value(value@);
                assert(list[k as int] == (entry.0 as nat, entry.1 as nat, entry.2.value()));
                assert(out@ =~= old(out)@ + le_bytes(list.len(), 8) + entries_encoding(
                    list,
                    (k + 1) as nat,
                ));
            }
            k = k + 1;
        }
    }

    /// The product of the matrix with the vector `z`, which has to have one
    /// entry per column.
    pub fn multiply_vec(&self, z: &[F]) -> (r: Result<Vec<F>, NovaError>)
        ensures
            z@.len() != self.cols() ==> r is Err && r->Err_0 == NovaError::InvalidInputLength,
            z@.len() == self.cols() ==> r is Ok && r->Ok_0@.len() == self.rows() && forall|i: int|
                0 <= i < self.rows() ==> (#[trigger] r->Ok_0@[i]).value() == product_entry::<F>(
                    self.entries(),
                    values(z@),
                    i as nat,
                ),
    {
        if z.len() != self.cols {
            return Err(NovaError::InvalidInputLength);
        }
        let ghost p = F::modulus() as int;
        let ghost list = self.entries();
        let ghost zv = values(z@);
        proof {
            use_type_invariant(self);
            F::modulus_bounds();
            vstd::arithmetic::power2::lemma_pow2_pos(250);
            lemma_small_mod(0, p as nat);
        }
        let mut out: Vec<F> = Vec::new();
        let mut i: usize = 0;
        while i < self.rows
            invariant
                i <= self.rows,
                out@.len() == i,
                forall|j: int| 0 <= j < i ==> (#[trigger] out@[j]).value() == 0,
            decreases self.rows - i,
        {
            out.push(F::zero());
            i = i + 1;
        }
        let mut k: usize = 0;
        while k < self.entries.len()
            invariant
                k <= self.entries@.len(),
                p == F::modulus(),
                p > 0,
                list == entry_values(self.entries@),
                zv == values(z@),
                z@.len() == self.cols,
                entries_fit(self.entries@, self.rows as nat, self.cols as nat),
                out@.len() == self.rows,
                forall|j: int|
                    0 <= j < self.rows ==> (#[trigger] out@[j]).value() == row_sum(
                        list,
                        zv,
                        j as nat,
                        k as nat,
                    ) % (p as nat),
            decreases self.entries@.len() - k,
        {
            let entry = self.entries[k];
            let row = entry.0;
            let col = entry.1;
            let term = entry.2.mul(&z[col]);
            let sum = out[row].add(&term);
            proof {
                assert(list[k as int] == (row as nat, col as nat, entry.2.value()));
                assert(zv[col as int] == z@[col as int].value());
                lemma_add_mod_noop(
                    row_sum(list, zv, row as nat, k as nat) as int,
                    (entry.2.value() * zv[col as int]) as int,
                    p,
                );
            }
            out.set(row, sum);
            k = k + 1;
        }
        Ok(out)
    }
}

/// The constraints of a circuit: the three matrices and the numbers of
/// constraints, of variables and of public inputs.
pub struct R1CSShape<E: Engine> {
    num_cons: usize,
    num_vars: usize,
    num_io: usize,
    a: SparseMatrix<E::Scalar>,
    b: SparseMatrix<E::Scalar>,
    c: SparseMatrix<E::Scalar>,
}

/// The private part of a relaxed assignment: the variables and the error
/// vector.
pub struct RelaxedR1CSWitness<E: Engine> {
    /// The values of the variables.
    pub w: Vec<E::Scalar>,
    /// The error, one entry per constraint.
    pub e: Vec<E::Scalar>,
}

/// The public part of a relaxed assignment: the commitments to the
/// witness, the public inputs, and the scaling factor.
pub struct RelaxedR1CSInstance<E: Engine> {
    /// The commitment to the variables.
    pub comm_w: Commitment<E::GE>,
    /// The commitment to the error vector.
    pub comm_e: Commitment<E::GE>,
    /// The public inputs.
    pub x: Vec<E::Scalar>,
    /// The scaling factor.
    pub u: E::Scalar,
}

impl<E: Engine> RelaxedR1CSWitness<E> {
    /// The commitments to the variables and to the error vector, which an
    /// instance for this witness has to hold. A key with fewer generators
    /// than either has entries is refused.
    pub fn commit(&self, ck: &CommitmentKey<E::GE>) -> (r: Result<
        (Commitment<E::GE>, Commitment<E::GE>),
        NovaError,
    >)
        ensures
            self.w@.len() > ck@.len() || self.e@.len() > ck@.len() ==> r is Err && r->Err_0
                == NovaError::InvalidCommitmentKeyLength,
            self.w@.len() <= ck@.len() && self.e@.len() <= ck@.len() ==> r is Ok && {
                let (comm_w, comm_e) = r->Ok_0;
                &&& comm_w.comm.encoding() == <E::GE as DlogGroup>::multiple(
                    commitment::<E::GE>(ck@, values(self.w@)),
                )
                &&& comm_e.comm.encoding() == <E::GE as DlogGroup>::multiple(
                    commitment::<E::GE>(ck@, values(self.e@)),
                )
            },
    {
        let comm_w = match commit(ck, self.w.as_slice()) {
            Ok(c) => c,
            Err(e) => {
                return Err(e);
            },
        };
        let comm_e = match commit(ck, self.e.as_slice()) {
            Ok(c) => c,
            Err(e) => {
                return Err(e);
            },
        };
        Ok((comm_w, comm_e))
    }
}

/// The assignment `z = (W, u, X)` of an instance and a witness.
pub open spec fn assignment<E: Engine>(
    instance: &RelaxedR1CSInstance<E>,
    witness: &RelaxedR1CSWitness<E>,
) -> Seq<nat> {
    values(witness.w@) + seq![instance.u.value()] + values(instance.x@)
}

impl<E: Engine> R1CSShape<E> {
    #[verifier::type_invariant]
    spec fn sizes_agree(self) -> bool {
        &&& self.num_vars + 1 + self.num_io <= usize::MAX
        &&& self.a.rows() == self.num_cons
        &&& self.b.rows() == self.num_cons
        &&& self.c.rows() == self.num_cons
        &&& self.a.cols() == self.num_vars + 1 + self.num_io
        &&& self.b.cols() == self.num_vars + 1 + self.num_io
        &&& self.c.cols() == self.num_vars + 1 + self.num_io
    }

    /// The number of constraints.
    pub closed spec fn constraints(&self) -> nat {
        self.num_cons as nat
    }

    /// The number of variables.
    pub closed spec fn variables(&self) -> nat {
        self.num_vars as nat
    }

    /// The number of public inputs.
    pub closed spec fn inputs(&self) -> nat {
        self.num_io as nat
    }

    /// The entries of `A`.
    pub closed spec fn a_entries(&self) -> Seq<(nat, nat, nat)> {
        self.a.entries()
    }

    /// The entries of `B`.
    pub closed spec fn b_entries(&self) -> Seq<(nat, nat, nat)> {
        self.b.entries()
    }

    /// The entries of `C`.
    pub closed spec fn c_entries(&self) -> Seq<(nat, nat, nat)> {
        self.c.entries()
    }

    /// Whether three lists of entries fit matrices of the size that the
    /// three numbers ask for.
    pub open spec fn well_sized(
        num_cons: usize,
        num_vars: usize,
        num_io: usize,
        a: Seq<(usize, usize, E::Scalar)>,
        b: Seq<(usize, usize, E::Scalar)>,
        c: Seq<(usize, usize, E::Scalar)>,
    ) -> bool {
        let cols = (num_vars + 1 + num_io) as nat;
        &&& num_vars + 1 + num_io <= usize::MAX
        &&& entries_fit(a, num_cons as nat, cols)
        &&& entries_fit(b, num_cons as nat, cols)
        &&& entries_fit(c, num_cons as nat, cols)
    }

    /// A shape with the given numbers and matrices. It is refused where
    /// the assignment would have more entries than can be counted, or an
    /// entry of a matrix lies outside it.
    pub fn new(
        num_cons: usize,
        num_vars: usize,
        num_io: usize,
        a: Vec<(usize, usize, E::Scalar)>,
        b: Vec<(usize, usize, E::Scalar)>,
        c: Vec<(usize, usize, E::Scalar)>,
    ) -> (r: Result<Self, NovaError>)
        ensures
            !Self::well_sized(num_cons, num_vars, num_io, a@, b@, c@) ==> r is Err && r->Err_0
                == NovaError::InvalidIndex,
            Self::well_sized(num_cons, num_vars, num_io, a@, b@, c@) ==> r is Ok && {
                let s = r->Ok_0;
                &&& s.constraints() == num_cons
                &&& s.variables() == num_vars
                &&& s.inputs() == num_io
                &&& s.a_entries() == entry_values(a@)
                &&& s.b_entries() == entry_values(b@)
                &&& s.c_entries() == entry_values(c@)
            },
    {
        if num_vars == usize::MAX || num_io > usize::MAX - num_vars - 1 {
            return Err(NovaError::InvalidIndex);
        }
        let cols = num_vars + 1 + num_io;
        let a = match SparseMatrix::new(num_cons, cols, a) {
            Ok(m) => m,
            Err(_) => {
                return Err(NovaError::InvalidIndex);
            },
        };
        let b = match SparseMatrix::new(num_cons, cols, b) {
            Ok(m) => m,
            Err(_) => {
                return Err(NovaError::InvalidIndex);
            },
        };
        let c = match SparseMatrix::new(num_cons, cols, c) {
            Ok(m) => m,
            Err(_) => {
                return Err(NovaError::InvalidIndex);
            },
        };
        Ok(R1CSShape { num_cons, num_vars, num_io, a, b, c })
    }

    /// The number of constraints.
    pub fn num_cons(&self) -> (r: usize)
        ensures
            r == self.constraints(),
    {
        self.num_cons
    }

    /// The number of variables.
    pub fn num_vars(&self) -> (r: usize)
        ensures
            r == self.variables(),
    {
        self.num_vars
    }

    /// The number of public inputs.
    pub fn num_io(&self) -> (r: usize)
        ensures
            r == self.inputs(),
    {
        self.num_io
    }

    /// The shape laid out as bytes: the three numbers in eight bytes
    /// each, then the three matrices.
    pub open spec fn encoding(&self) -> Seq<u8> {
        le_bytes(self.constraints(), 8) + le_bytes(self.variables(), 8) + le_bytes(
            self.inputs(),
            8,
        ) + matrix_encoding(self.a_entries()) + matrix_encoding(self.b_entries())
            + matrix_encoding(self.c_entries())
    }

    /// Appends the shape, laid out as bytes.
    pub fn write_to(&self, out: &mut Vec<u8>)
        ensures
            final(out)@ == old(out)@ + self.encoding(),
    {
        append_count(out, self.num_cons);
        append_count(out, self.num_vars);
        append_count(out, self.num_io);
        self.a.write_to(out);
        self.b.write_to(out);
        self.c.write_to(out);
        proof {
            assert(out@ =~= old(out)@ + self.encoding());
        }
    }

    /// Whether constraint `i` holds of the assignment `z` with the scaling
    /// factor `u` and the error vector `e`.
    pub open spec fn row_holds(&self, z: Seq<nat>, u: nat, e: Seq<nat>, i: int) -> bool {
        let p = <E::Scalar as PrimeField>::modulus();
        let az = product_entry::<E::Scalar>(self.a_entries(), z, i as nat);
        let bz = product_entry::<E::Scalar>(self.b_entries(), z, i as nat);
        let cz = product_entry::<E::Scalar>(self.c_entries(), z, i as nat);
        (az * bz) % p == (u * cz + e[i]) % p
    }

    /// Whether the witness has the lengths that the shape asks for.
    pub open spec fn lengths_fit(
        &self,
        instance: &RelaxedR1CSInstance<E>,
        witness: &RelaxedR1CSWitness<E>,
    ) -> bool {
        &&& witness.w@.len() == self.variables()
        &&& witness.e@.len() == self.constraints()
        &&& instance.x@.len() == self.inputs()
    }

    /// Whether a key with `len` generators is long enough to commit to a
    /// witness of the shape.
    pub open spec fn key_fits(&self, len: nat) -> bool {
        len >= self.variables() && len >= self.constraints()
    }

    /// Whether the instance and the witness satisfy the shape under the
    /// key whose generators have the indices `ck`.
    pub open spec fn is_satisfied(
        &self,
        ck: Seq<nat>,
        instance: &RelaxedR1CSInstance<E>,
        witness: &RelaxedR1CSWitness<E>,
    ) -> bool {
        &&& self.lengths_fit(instance, witness)
        &&& self.key_fits(ck.len())
        &&& forall|i: int|
            0 <= i < self.constraints() ==> self.row_holds(
                assignment(instance, witness),
                instance.u.value(),
                values(witness.e@),
                i,
            )
        &&& instance.comm_w.comm.encoding() == <E::GE as DlogGroup>::multiple(
            commitment::<E::GE>(ck, values(witness.w@)),
        )
        &&& instance.comm_e.comm.encoding() == <E::GE as DlogGroup>::multiple(
            commitment::<E::GE>(ck, values(witness.e@)),
        )
    }

    /// The assignment `z = (W, u, X)`, laid out.
    fn assemble(instance: &RelaxedR1CSInstance<E>, witness: &RelaxedR1CSWitness<E>) -> (z: Vec<E::Scalar>)
        requires
            witness.w@.len() + 1 + instance.x@.len() <= usize::MAX,
        ensures
            values(z@) == assignment(instance, witness),
    {
        let mut z: Vec<E::Scalar> = Vec::new();
        let mut i: usize = 0;
        while i < witness.w.len()
            invariant
                i <= witness.w@.len(),
                z@ == witness.w@.subrange(0, i as int),
            decreases witness.w@.len() - i,
        {
            z.push(witness.w[i]);
            proof {
                assert(z@ =~= witness.w@.subrange(0, i + 1));
            }
            i = i + 1;
        }
        z.push(instance.u);
        let mut j: usize = 0;
        while j < instance.x.len()
            invariant
                j <= instance.x@.len(),
                z@ == witness.w@ + seq![instance.u] + instance.x@.subrange(0, j as int),
            decreases instance.x@.len() - j,
        {
            z.push(instance.x[j]);
            proof {
                assert(z@ =~= witness.w@ + seq![instance.u] + instance.x@.subrange(0, j + 1));
            }
            j = j + 1;
        }
        proof {
            assert(z@ =~= witness.w@ + seq![instance.u] + instance.x@);
            assert(values(z@) =~= assignment(instance, witness));
        }
        z
    }

    /// Checks that the instance and the witness satisfy the shape under
    /// the key.
    ///
    /// A witness or an instance of the wrong length is reported first, then
    /// a key with too few generators, then a constraint or a commitment
    /// that does not hold.
    pub fn is_sat_relaxed(
        &self,
        ck: &CommitmentKey<E::GE>,
        instance: &RelaxedR1CSInstance<E>,
        witness: &RelaxedR1CSWitness<E>,
    ) -> (r: Result<(), NovaError>)
        ensures
            r is Ok <==> self.is_satisfied(ck@, instance, witness),
            !self.lengths_fit(instance, witness) ==> r is Err && r->Err_0
                == NovaError::InvalidWitnessLength,
            self.lengths_fit(instance, witness) && !self.key_fits(ck@.len()) ==> r is Err
                && r->Err_0 == NovaError::InvalidCommitmentKeyLength,
            self.lengths_fit(instance, witness) && self.key_fits(ck@.len()) && !self.is_satisfied(
                ck@,
                instance,
                witness,
            ) ==> r is Err && r->Err_0 == NovaError::UnSat,
    {
        proof {
            use_type_invariant(self);
        }
        if witness.w.len() != self.num_vars || witness.e.len() != self.num_cons || instance.x.len()
            != self.num_io {
            return Err(NovaError::InvalidWitnessLength);
        }
        if ck.length() < self.num_vars || ck.length() < self.num_cons {
            return Err(NovaError::InvalidCommitmentKeyLength);
        }
        let ghost p = <E::Scalar as PrimeField>::modulus() as int;
        let ghost zv = assignment(instance, witness);
        let ghost ev = values(witness.e@);
        let z = Self::assemble(instance, witness);
        proof {
            assert(values(z@).len() == z@.len());
            assert(zv.len() == self.num_vars + 1 + self.num_io);
        }
        let az = match self.a.multiply_vec(z.as_slice()) {
            Ok(v) => v,
            Err(e) => {
                return Err(e);
            },
        };
        let bz = match self.b.multiply_vec(z.as_slice()) {
            Ok(v) => v,
            Err(e) => {
                return Err(e);
            },
        };
        let cz = match self.c.multiply_vec(z.as_slice()) {
            Ok(v) => v,
            Err(e) => {
                return Err(e);
            },
        };
        proof {
            <E::Scalar as PrimeField>::modulus_bounds();
            vstd::arithmetic::power2::lemma_pow2_pos(250);
        }
        let mut i: usize = 0;
        while i < self.num_cons
            invariant
                i <= self.num_cons,
                p == <E::Scalar as PrimeField>::modulus(),
                p > 0,
                zv == assignment(instance, witness),
                ev == values(witness.e@),
                self.lengths_fit(instance, witness),
                self.key_fits(ck@.len()),
                witness.e@.len() == self.num_cons,
                az@.len() == self.num_cons,
                bz@.len() == self.num_cons,
                cz@.len() == self.num_cons,
                forall|j: int|
                    0 <= j < self.num_cons ==> (#[trigger] az@[j]).value() == product_entry::<
                        E::Scalar,
                    >(self.a.entries(), zv, j as nat),
                forall|j: int|
                    0 <= j < self.num_cons ==> (#[trigger] bz@[j]).value() == product_entry::<
                        E::Scalar,
                    >(self.b.entries(), zv, j as nat),
                forall|j: int|
                    0 <= j < self.num_cons ==> (#[trigger] cz@[j]).value() == product_entry::<
                        E::Scalar,
                    >(self.c.entries(), zv, j as nat),
                forall|j: int| 0 <= j < i ==> self.row_holds(zv, instance.u.value(), ev, j),
            decreases self.num_cons - i,
        {
            let left = az[i].mul(&bz[i]);
            let right = instance.u.mul(&cz[i]).add(&witness.e[i]);
            proof {
                assert(ev[i as int] == witness.e@[i as int].value());
                lemma_add_mod_noop_right(
                    ev[i as int] as int,
                    (instance.u.value() * cz@[i as int].value()) as int,
                    p,
                );
                assert(ev[i as int] + instance.u.value() * cz@[i as int].value()
                    == instance.u.value() * cz@[i as int].value() + ev[i as int]);
                assert((instance.u.value() * cz@[i as int].value()) % (p as nat) + ev[i as int]
                    == ev[i as int] + (instance.u.value() * cz@[i as int].value()) % (p as nat));
            }
            if !left.equals(&right) {
                proof {
                    assert(!self.row_holds(zv, instance.u.value(), ev, i as int));
                }
                return Err(NovaError::UnSat);
            }
            i = i + 1;
        }
        let comm_w = match commit(ck, witness.w.as_slice()) {
            Ok(c) => c,
            Err(e) => {
                return Err(e);
            },
        };
        if !comm_w.comm.equals(&instance.comm_w.comm) {
            return Err(NovaError::UnSat);
        }
        let comm_e = match commit(ck, witness.e.as_slice()) {
            Ok(c) => c,
            Err(e) => {
                return Err(e);
            },
        };
        if !comm_e.comm.equals(&instance.comm_e.comm) {
            return Err(NovaError::UnSat);
        }
        Ok(())
    }
}

} // verus!
