//! Collecting a list of fallible readings: all of them, or the first failure.
use vstd::prelude::*;

verus! {

/// The readings `f(0)`, ..., `f(n - 1)` if all of them succeed, else the
/// failure of the first that does not.
pub open spec fn gather<T, E>(n: nat, f: spec_fn(int) -> Result<T, E>) -> Result<Seq<T>, E>
    decreases n,
{
    if n == 0 {
        Ok(Seq::empty())
    } else {
        match gather((n - 1) as nat, f) {
            Err(e) => Err(e),
            Ok(before) => match f(n - 1) {
                Ok(last) => Ok(before.push(last)),
                Err(e) => Err(e),
            },
        }
    }
}

/// A failure among the first `k` readings is the failure of all `n`.
pub proof fn lemma_gather_fails<T, E>(k: nat, n: nat, f: spec_fn(int) -> Result<T, E>)
    requires
        k <= n,
        gather(k, f) is Err,
    ensures
        gather(n, f) == gather(k, f),
    decreases n,
{
    if k < n {
        lemma_gather_fails(k, (n - 1) as nat, f);
    }
}

/// Where all readings succeed, the list holds each of them at its place.
pub proof fn lemma_gather_succeeds<T, E>(n: nat, f: spec_fn(int) -> Result<T, E>)
    requires
        gather(n, f) is Ok,
    ensures
        gather(n, f)->Ok_0.len() == n,
        forall|i: int| 0 <= i < n ==> f(i) == Ok::<T, E>(#[trigger] gather(n, f)->Ok_0[i]),
    decreases n,
{
    if n > 0 {
        lemma_gather_succeeds((n - 1) as nat, f);
    }
}

/// Where every reading succeeds, the list does.
pub proof fn lemma_gather_all<T, E>(n: nat, f: spec_fn(int) -> Result<T, E>)
    requires
        forall|i: int| 0 <= i < n ==> #[trigger] f(i) is Ok,
    ensures
        gather(n, f) is Ok,
    decreases n,
{
    if n > 0 {
        lemma_gather_all((n - 1) as nat, f);
        assert(f(n - 1) is Ok);
    }
}

} // verus!
