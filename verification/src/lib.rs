//! Polynomial vector commitments over the BN254 pairing.
//!
//! A vector of field elements is committed to with a binding property: the
//! vector cannot be changed after the commitment. Proofs that an index holds a
//! value can then be made and checked against the commitment alone.

use crate::precompute::{PrecomputedLagrange, TableView};
use vstd::prelude::*;

pub mod algebra;
pub mod curve;
pub mod domain;
pub mod field;
pub mod field_lemmas;
pub mod kzg;
pub mod lagrange_basis;
pub mod opening;
pub mod precompute;
pub mod transcript;
pub mod utils;

verus! {

/// The errors of the pairing-based scheme.
#[derive(Clone, Copy, Debug, PartialEq, Eq, Structural)]
pub enum KZGError {
    /// An unspecified error occurred.
    DefaultError,
    /// The requested domain size cannot be created.
    InvalidDomain,
    /// The operation is not implemented by this scheme.
    NotImplemented,
}

/// The errors of a point generator.
#[derive(Clone, Copy, Debug, PartialEq, Eq, Structural)]
pub enum PointGeneratorError {
    /// More points were requested than the generator allows.
    OutOfBounds,
    /// Bytes were to be read as a point that does not exist.
    InvalidPoint,
}

/// What can go wrong in a scheme's setup: its point generator fails, or the
/// scheme itself does.
#[derive(Clone, Copy, Debug, PartialEq, Eq)]
pub enum SetupError<E> {
    /// The point generator failed.
    Generator(PointGeneratorError),
    /// The scheme failed.
    Scheme(E),
}

impl KZGError {
    /// What the error says.
    pub fn message(&self) -> (r: &'static str)
        ensures
            *self == KZGError::DefaultError ==> r@ == "An unspecified error occurred"@,
            *self == KZGError::InvalidDomain ==> r@
                == "Cannot create the requested domain size"@,
            *self == KZGError::NotImplemented ==> r@
                == "The operation is not implemented by this scheme"@,
    {
        match self {
            KZGError::DefaultError => "An unspecified error occurred",
            KZGError::InvalidDomain => "Cannot create the requested domain size",
            KZGError::NotImplemented => "The operation is not implemented by this scheme",
        }
    }
}

impl PointGeneratorError {
    /// What the error says.
    pub fn message(&self) -> (r: &'static str)
        ensures
            *self == PointGeneratorError::OutOfBounds ==> r@
                == "Attempted to create generator outside of max allowed"@,
            *self == PointGeneratorError::InvalidPoint ==> r@
                == "Attempt to serialize bytes into a non-exsistent point"@,
    {
        match self {
            PointGeneratorError::OutOfBounds => {
                "Attempted to create generator outside of max allowed"
            },
            PointGeneratorError::InvalidPoint => {
                "Attempt to serialize bytes into a non-exsistent point"
            },
        }
    }
}

/// The proving and verification parameters of a scheme.
pub trait VCUniversalParams {
    /// The maximum number of items that can be committed to with this key.
    spec fn max_size_spec(&self) -> nat;

    /// Outputs the maximum number of items that can be committed to with this key.
    fn max_size(&self) -> (r: usize)
        ensures
            r == self.max_size_spec(),
    ;
}

/// Parameters that carry a table for their evaluation domain.
pub trait HasPrecompute {
    /// What the table holds.
    spec fn table(&self) -> TableView;

    /// The table.
    fn precompute(&self) -> (r: &PrecomputedLagrange)
        ensures
            r@ == self.table(),
    ;
}

/// A vector dataset.
pub trait VCData: Sized {
    /// The entries of the vector.
    type Item;

    /// The entries that the dataset holds.
    spec fn items(&self) -> Seq<Self::Item>;

    /// The lengths that a dataset can have.
    spec fn valid_length(len: nat) -> bool;

    /// Whether `item` is the entry that stands for the index `index`.
    spec fn is_index_item(index: nat, item: Self::Item) -> bool;

    /// The dataset with the entries `data`.
    fn from_vec(data: Vec<Self::Item>) -> (r: Self)
        requires
            Self::valid_length(data@.len()),
        ensures
            r.items() == data@,
    ;

    /// Replaces the entry at `index`.
    fn set_evaluation(&mut self, index: usize, value: Self::Item)
        requires
            index < old(self).items().len(),
        ensures
            final(self).items() == old(self).items().update(index as int, value),
    ;

    /// The entry at `index`, if there is one.
    fn get(&self, index: usize) -> (r: Option<&Self::Item>)
        ensures
            index < self.items().len() ==> r == Some(&self.items()[index as int]),
            index >= self.items().len() ==> r.is_none(),
    ;

    /// Every entry with its index.
    fn get_all(&self) -> (r: Vec<(usize, &Self::Item)>)
        ensures
            r@.len() == self.items().len(),
            forall|i: int|
                0 <= i < r@.len() ==> (#[trigger] r@[i]).0 == i && *r@[i].1 == self.items()[i],
    ;

    /// The entry that a byte string encodes.
    fn bytes_to_item(bytes: &[u8]) -> Self::Item;

    /// The entry that stands for an index.
    fn item_from_index(index: usize) -> (r: Self::Item)
        ensures
            Self::is_index_item(index as nat, r),
    ;
}

/// A commitment that can itself be committed to, as an entry of type `F`.
pub trait VCCommitment<F> {
    /// Whether `item` is the entry that stands for this commitment.
    spec fn is_data_item(&self, item: F) -> bool;

    /// The entry that stands for this commitment.
    fn to_data_item(&self) -> (r: F)
        ensures
            self.is_data_item(r),
    ;
}

/// A source of the structured points that a scheme's parameters are made of.
pub trait PointGenerator {
    /// The points.
    type Point;

    /// The trapdoor that the points are derived from.
    type Secret;

    /// What `gen` returns for `num`.
    spec fn gen_post(&self, num: usize, r: Result<Vec<Self::Point>, PointGeneratorError>) -> bool;

    /// What `gen_at` returns for `index`.
    spec fn gen_at_post(&self, index: usize, r: Result<Self::Point, PointGeneratorError>) -> bool;

    /// What `secret` returns.
    spec fn secret_post(&self, r: Option<Self::Secret>) -> bool;

    /// The first `num` points.
    fn gen(&self, num: usize) -> (r: Result<Vec<Self::Point>, PointGeneratorError>)
        ensures
            self.gen_post(num, r),
    ;

    /// The point at `index`.
    fn gen_at(&self, index: usize) -> (r: Result<Self::Point, PointGeneratorError>)
        ensures
            self.gen_at_post(index, r),
    ;

    /// The trapdoor, where the generator reveals it.
    fn secret(&self) -> (r: Option<Self::Secret>)
        ensures
            self.secret_post(r),
    ;
}

/// A vector commitment scheme: committing to a vector of data and proving that
/// an index holds a value.
pub trait VectorCommitment {
    /// The universal parameters of the scheme.
    type UniversalParams: VCUniversalParams;

    /// The commitment to a vector.
    type Commitment: VCCommitment<<Self::Data as VCData>::Item> + Clone;

    /// The vector dataset.
    type Data: VCData;

    /// The proof for a single member of a vector.
    type Proof;

    /// The proof for multiple members of a vector.
    type BatchProof;

    /// The error type of the scheme.
    type Error;

    /// The type that generates the points of the scheme's parameters.
    type PointGenerator;

    /// The accumulator of challenges, for proofs whose point is drawn from
    /// what was committed to.
    type Transcript;

    /// What `setup` returns.
    spec fn setup_post(
        max_items: usize,
        gen: Self::PointGenerator,
        r: Result<Self::UniversalParams, SetupError<Self::Error>>,
    ) -> bool;

    /// What `commit` returns.
    spec fn commit_post(
        key: Self::UniversalParams,
        data: Self::Data,
        r: Result<Self::Commitment, Self::Error>,
    ) -> bool;

    /// What `prove_point` returns.
    spec fn prove_point_post(
        key: Self::UniversalParams,
        commitment: Self::Commitment,
        point: <Self::Data as VCData>::Item,
        data: Self::Data,
        transcript: Option<Self::Transcript>,
        r: Result<Self::Proof, Self::Error>,
    ) -> bool;

    /// What `prove_batch` returns.
    spec fn prove_batch_post(
        key: Self::UniversalParams,
        commitment: Self::Commitment,
        indexes: Seq<usize>,
        data: Self::Data,
        r: Result<Self::BatchProof, Self::Error>,
    ) -> bool;

    /// What `verify_point` returns.
    spec fn verify_point_post(
        key: Self::UniversalParams,
        commitment: Self::Commitment,
        point: <Self::Data as VCData>::Item,
        proof: Self::Proof,
        transcript: Option<Self::Transcript>,
        r: Result<bool, Self::Error>,
    ) -> bool;

    /// What `verify_batch` returns.
    spec fn verify_batch_post(
        key: Self::UniversalParams,
        commitment: Self::Commitment,
        proof: Self::BatchProof,
        r: Result<bool, Self::Error>,
    ) -> bool;

    /// Constructs the universal parameters of the scheme, which allow committing
    /// to and proving inclusion in vectors of up to `max_items` items.
    fn setup(max_items: usize, gen: &Self::PointGenerator) -> (r: Result<
        Self::UniversalParams,
        SetupError<Self::Error>,
    >)
        ensures
            Self::setup_post(max_items, *gen, r),
    ;

    /// Commits to a data vector under the parameters `key`.
    fn commit(key: &Self::UniversalParams, data: &Self::Data) -> (r: Result<
        Self::Commitment,
        Self::Error,
    >)
        ensures
            Self::commit_post(*key, *data, r),
    ;

    /// Proves what the data holds at `index`: the proof of `prove_point` at the
    /// entry that stands for the index.
    fn prove(
        key: &Self::UniversalParams,
        commitment: &Self::Commitment,
        index: usize,
        data: &Self::Data,
    ) -> (r: Result<Self::Proof, Self::Error>)
        ensures
            exists|point: <Self::Data as VCData>::Item|
                <Self::Data as VCData>::is_index_item(index as nat, point)
                    && #[trigger] Self::prove_point_post(
                    *key,
                    *commitment,
                    point,
                    *data,
                    None,
                    r,
                ),
    {
        let point = <Self::Data as VCData>::item_from_index(index);
        Self::prove_point(key, commitment, point, data, None)
    }

    /// Proves what the data's polynomial evaluates to at `point`. Without a
    /// transcript the point is the caller's own.
    fn prove_point(
        key: &Self::UniversalParams,
        commitment: &Self::Commitment,
        point: <Self::Data as VCData>::Item,
        data: &Self::Data,
        transcript: Option<Self::Transcript>,
    ) -> (r: Result<Self::Proof, Self::Error>)
        ensures
            Self::prove_point_post(*key, *commitment, point, *data, transcript, r),
    ;

    /// Generates a batch proof for all of the `indexes`.
    fn prove_batch(
        key: &Self::UniversalParams,
        commitment: &Self::Commitment,
        indexes: Vec<usize>,
        data: &Self::Data,
    ) -> (r: Result<Self::BatchProof, Self::Error>)
        ensures
            Self::prove_batch_post(*key, *commitment, indexes@, *data, r),
    ;

    /// Verifies a proof for `index`: the verdict of `verify_point` at the entry
    /// that stands for the index.
    fn verify(
        key: &Self::UniversalParams,
        commitment: &Self::Commitment,
        index: usize,
        proof: &Self::Proof,
    ) -> (r: Result<bool, Self::Error>)
        ensures
            exists|point: <Self::Data as VCData>::Item|
                <Self::Data as VCData>::is_index_item(index as nat, point)
                    && #[trigger] Self::verify_point_post(
                    *key,
                    *commitment,
                    point,
                    *proof,
                    None,
                    r,
                ),
    {
        let point = <Self::Data as VCData>::item_from_index(index);
        Self::verify_point(key, commitment, point, proof, None)
    }

    /// Verifies a proof for the evaluation point `point`.
    fn verify_point(
        key: &Self::UniversalParams,
        commitment: &Self::Commitment,
        point: <Self::Data as VCData>::Item,
        proof: &Self::Proof,
        transcript: Option<Self::Transcript>,
    ) -> (r: Result<bool, Self::Error>)
        ensures
            Self::verify_point_post(*key, *commitment, point, *proof, transcript, r),
    ;

    /// Verifies a batch proof.
    fn verify_batch(
        key: &Self::UniversalParams,
        commitment: &Self::Commitment,
        proof: &Self::BatchProof,
    ) -> (r: Result<bool, Self::Error>)
        ensures
            Self::verify_batch_post(*key, *commitment, *proof, r),
    ;
}

} // verus!
