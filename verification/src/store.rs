//! The pair that is served, a bundle with the archive packed from it, and the
//! cell that holds the current pair.

use crate::bundle::{archive_of, encodable, packed, revision_of, Bundle, BundleView};
use crate::error::{FetchError, RefreshError, SerializationError};
use vstd::prelude::*;

verus! {

/// A bundle together with its archive. The two are made in one step and
/// never changed, so the archive is always the one packed from this bundle.
pub struct BundleFile {
    bundle: Bundle,
    file: Vec<u8>,
}

/// What a pair is, for contracts: the bundle and the bytes of the archive.
pub struct BundleFileView {
    pub bundle: BundleView,
    pub file: Seq<u8>,
}

/// A pair is consistent when the revision is the one of the bundle's
/// fields and the archive is what packing the bundle gives.
pub open spec fn consistent(pair: BundleFileView) -> bool {
    &&& pair.bundle.revision == revision_of(
        pair.bundle.metadata,
        pair.bundle.proposals,
        pair.bundle.sessions,
        pair.bundle.permissions,
    )
    &&& packed(pair.bundle) == Ok::<Seq<u8>, SerializationError>(pair.file)
}

impl View for BundleFile {
    type V = BundleFileView;

    closed spec fn view(&self) -> BundleFileView {
        BundleFileView { bundle: self.bundle@, file: self.file@ }
    }
}

impl BundleFile {
    /// Every pair is consistent.
    #[verifier::type_invariant]
    pub closed spec fn well_formed(&self) -> bool {
        self.bundle.well_formed() && consistent(self@)
    }

    /// Packs the bundle and pairs it with its archive. There is a pair
    /// exactly when packing gives an archive, and it holds that archive;
    /// otherwise the error is that of the packing.
    pub fn try_from(bundle: Bundle) -> (out: Result<Self, SerializationError>)
        ensures
            match out {
                Ok(pair) => {
                    &&& pair@.bundle == bundle@
                    &&& packed(bundle@) == Ok::<Seq<u8>, SerializationError>(pair@.file)
                    &&& consistent(pair@)
                },
                Err(error) => packed(bundle@) == Err::<Seq<u8>, SerializationError>(error),
            },
            out is Ok <==> encodable(bundle@) && archive_of(bundle@) is Some,
            out matches Err(error) ==> error != SerializationError::Archive,
    {
        match bundle.to_tar_gz() {
            Ok(file) => {
                proof {
                    use_type_invariant(&bundle);
                    bundle.lemma_revision();
                }
                Ok(Self { bundle, file })
            },
            Err(e) => Err(e),
        }
    }

    /// The bundle.
    pub fn bundle(&self) -> (bundle: &Bundle)
        ensures
            bundle@ == self@.bundle,
            consistent(self@),
    {
        proof {
            use_type_invariant(self);
        }
        &self.bundle
    }

    /// The archive packed from the bundle.
    pub fn file(&self) -> (file: &[u8])
        ensures
            file@ == self@.file,
            consistent(self@),
    {
        proof {
            use_type_invariant(self);
        }
        self.file.as_slice()
    }
}

/// The cell that holds the current pair. It is replaced as a whole and never
/// edited in place, and it keeps no history.
pub struct BundleStore {
    current: BundleFile,
}

impl View for BundleStore {
    type V = BundleFileView;

    closed spec fn view(&self) -> BundleFileView {
        self.current@
    }
}

impl BundleStore {
    /// A store that holds `initial`.
    pub fn new(initial: BundleFile) -> (store: Self)
        ensures
            store@ == initial@,
    {
        Self { current: initial }
    }

    /// The current pair.
    pub fn read(&self) -> (pair: &BundleFile)
        ensures
            pair@ == self@,
            consistent(self@),
    {
        proof {
            use_type_invariant(&self.current);
        }
        &self.current
    }

    /// Replaces the current pair by `next`; the pair held before is dropped.
    pub fn swap(&mut self, next: BundleFile)
        ensures
            final(self)@ == next@,
    {
        self.current = next;
    }
}

/// One step in the life of a store.
pub enum Step {
    /// A reader looks at the current pair.
    Read,
    /// The writer replaces the current pair by this one.
    Swap(BundleFileView),
}

/// The pair that a store holds after these steps, taken one at a time in
/// this order, if it held `initial` before them.
pub open spec fn held_after(initial: BundleFileView, steps: Seq<Step>) -> BundleFileView
    decreases steps.len(),
{
    if steps.len() == 0 {
        initial
    } else {
        match steps.last() {
            Step::Read => held_after(initial, steps.drop_last()),
            Step::Swap(next) => next,
        }
    }
}

/// In whatever order reads and swaps take their turns, a reader sees a whole
/// pair: the one the store began with or one that a swap before it put
/// there, never the bundle of one with the archive of another. If every pair
/// that was put there is consistent, so is the pair that is seen.
pub proof fn lemma_reads_see_whole_pairs(initial: BundleFileView, steps: Seq<Step>)
    requires
        consistent(initial),
        forall|i: int|
            0 <= i < steps.len() ==> (#[trigger] steps[i] matches Step::Swap(next) ==> consistent(
                next,
            )),
    ensures
        consistent(held_after(initial, steps)),
        held_after(initial, steps) == initial || exists|i: int|
            0 <= i < steps.len() && #[trigger] steps[i] == Step::Swap(held_after(initial, steps)),
    decreases steps.len(),
{
    if steps.len() > 0 {
        let last = steps.len() - 1;
        match steps[last] {
            Step::Read => {
                let earlier = steps.drop_last();
                assert forall|i: int| 0 <= i < earlier.len() implies (#[trigger] earlier[i] matches Step::Swap(
                    next,
                ) ==> consistent(next)) by {
                    assert(earlier[i] == steps[i]);
                }
                lemma_reads_see_whole_pairs(initial, earlier);
                let held = held_after(initial, earlier);
                if held != initial {
                    let i = choose|i: int|
                        0 <= i < earlier.len() && #[trigger] earlier[i] == Step::Swap(held);
                    assert(steps[i] == Step::Swap(held));
                }
            },
            Step::Swap(next) => {
                assert(steps[last] == Step::Swap(next));
            },
        }
    }
}

/// The store to start serving from: the first fetch, packed. Without a first
/// pair there is no store, and the failure says why.
pub fn fetch_initial_bundle(fetched: Result<Bundle, FetchError>) -> (out: Result<
    BundleStore,
    RefreshError,
>)
    ensures
        match fetched {
            Err(e) => out matches Err(failure) && failure == RefreshError::Fetch(e),
            Ok(bundle) => match out {
                Ok(store) => {
                    &&& store@.bundle == bundle@
                    &&& packed(bundle@) == Ok::<Seq<u8>, SerializationError>(store@.file)
                    &&& consistent(store@)
                },
                Err(RefreshError::Serialization(error)) => packed(bundle@) == Err::<
                    Seq<u8>,
                    SerializationError,
                >(error),
                Err(RefreshError::Fetch(_)) => false,
            },
        },
        out is Ok <==> (fetched matches Ok(bundle) && encodable(bundle@) && archive_of(bundle@)
            is Some),
{
    match fetched {
        Err(e) => Err(RefreshError::Fetch(e)),
        Ok(bundle) => match BundleFile::try_from(bundle) {
            Ok(pair) => Ok(BundleStore::new(pair)),
            Err(e) => Err(RefreshError::Serialization(e)),
        },
    }
}

} // verus!
