//! What can go wrong while a chunk is resolved or rendered.

use crate::ids::{ChunkId, ModuleId, SymbolRef};
use vstd::prelude::*;

verus! {

/// One diagnostic of a build.
#[derive(Clone, Debug, PartialEq, Eq)]
pub enum BuildError {
    /// The module could not be turned into text; `message` says why.
    RenderFailed { module: ModuleId, message: String },
    /// No rendering was handed in for the module.
    NotRendered { module: ModuleId },
    /// The module's source or its rendered text is longer than a segment of
    /// a chunk can be.
    ModuleTooLarge { module: ModuleId },
    /// The module table holds no module of the kind asked for under this id.
    UnknownModule { module: ModuleId },
    /// The chunk graph holds no chunk under this id, or the chunk has no
    /// file name yet.
    UnresolvedChunk { chunk: ChunkId },
    /// The symbol's owner is in no chunk and in no external table, or the
    /// symbol has no name where one is needed.
    DanglingReference { symbol: SymbolRef },
    /// The generated import or export statements are longer than a segment
    /// of a chunk can be.
    OutputTooLarge,
}

/// The outcome of work that may fail in several places at once: the result,
/// or every diagnostic that was met.
pub type BatchedResult<T> = Result<T, Vec<BuildError>>;

/// The values of `results`, in order, or the first error among them.
pub open spec fn gather<T>(results: Seq<Result<T, BuildError>>) -> Result<Seq<T>, BuildError>
    decreases results.len(),
{
    if results.len() == 0 {
        Ok(Seq::empty())
    } else {
        match gather(results.drop_last()) {
            Ok(values) => match results.last() {
                Ok(value) => Ok(values.push(value)),
                Err(error) => Err(error),
            },
            Err(error) => Err(error),
        }
    }
}

/// Gathering one result more: the value joins the values before it, and an
/// error is the outcome unless an earlier one was.
pub proof fn lemma_gather_step<T>(results: Seq<Result<T, BuildError>>, n: int)
    requires
        0 <= n < results.len(),
    ensures
        gather(results.take(n + 1)) == match gather(results.take(n)) {
            Ok(values) => match results[n] {
                Ok(value) => Ok(values.push(value)),
                Err(error) => Err(error),
            },
            Err(error) => Err(error),
        },
{
    assert(results.take(n + 1).drop_last() =~= results.take(n));
}

/// An error among the first `n` results is the outcome of the whole.
pub proof fn lemma_gather_fails<T>(results: Seq<Result<T, BuildError>>, n: int)
    requires
        0 <= n <= results.len(),
        gather(results.take(n)) is Err,
    ensures
        gather(results) == gather(results.take(n)),
    decreases results.len() - n,
{
    if n == results.len() {
        assert(results.take(n) =~= results);
    } else {
        lemma_gather_step(results, n);
        lemma_gather_fails(results, n + 1);
    }
}

/// Without an error, the values are those of the results, one for one.
pub proof fn lemma_gather_values<T>(results: Seq<Result<T, BuildError>>)
    ensures
        match gather(results) {
            Ok(values) => values.len() == results.len() && forall|i: int|
                0 <= i < results.len() ==> #[trigger] results[i] == Ok::<T, BuildError>(values[i]),
            Err(error) => exists|i: int|
                0 <= i < results.len() && #[trigger] results[i] == Err::<T, BuildError>(error),
        },
    decreases results.len(),
{
    if results.len() > 0 {
        lemma_gather_values(results.drop_last());
        match gather(results.drop_last()) {
            Ok(values) => {
                match results.last() {
                    Ok(value) => {
                        let all = values.push(value);
                        assert forall|i: int| 0 <= i < results.len() implies #[trigger] results[i]
                            == Ok::<T, BuildError>(all[i]) by {
                            if i < results.len() - 1 {
                                assert(results.drop_last()[i] == results[i]);
                            }
                        }
                    },
                    Err(error) => {
                        assert(results[results.len() - 1] == Err::<T, BuildError>(error));
                    },
                }
            },
            Err(error) => {
                let i = choose|i: int|
                    0 <= i < results.drop_last().len() && #[trigger] results.drop_last()[i] == Err::<
                        T,
                        BuildError,
                    >(error);
                assert(results[i] == Err::<T, BuildError>(error));
            },
        }
    }
}

} // verus!
