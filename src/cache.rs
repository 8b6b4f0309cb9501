use vstd::prelude::*;

verus! {

/// Everything a rendered grid image depends on; two renders with equal parameters are the same.
/// `hex_size_bits` is the IEEE-754 bit pattern of the hexagon size, so that equality is exact.
#[derive(Clone, Copy, PartialEq, Eq, Structural, Debug)]
pub struct GridParams {
    pub container_width: u32,
    pub container_height: u32,
    pub hex_size_bits: u32,
    pub overflow: usize,
}

/// What a request for a grid image did.
#[derive(Clone, Copy, PartialEq, Eq, Structural, Debug)]
pub enum GridStatus {
    /// The stored image was made with the requested parameters and is kept as it is.
    AlreadyExists,
    /// The image was rendered anew and its parameters recorded.
    Generated,
}

/// What is stored for one grid path: whether the image is there, and the parameters that its
/// metadata sidecar records (`None` where the sidecar is missing or unreadable).
#[derive(Clone, Copy, PartialEq, Eq, Structural, Debug)]
pub struct GridArtifacts {
    pub image_present: bool,
    pub metadata: Option<GridParams>,
}

/// The stored image can be reused for `requested` exactly when it is there and its sidecar
/// records the same four parameters.
pub open spec fn can_reuse(stored: GridArtifacts, requested: GridParams) -> bool {
    stored.image_present && stored.metadata == Some(requested)
}

/// The status of a request and what is stored after it, where rendering and the sidecar
/// write succeed.
pub open spec fn ensure_spec(stored: GridArtifacts, requested: GridParams) -> (GridStatus, GridArtifacts) {
    if can_reuse(stored, requested) {
        (GridStatus::AlreadyExists, stored)
    } else {
        (GridStatus::Generated, GridArtifacts { image_present: true, metadata: Some(requested) })
    }
}

impl GridArtifacts {
    /// Whether a request for `requested` reuses the stored image or renders a new one.
    pub fn status_for(&self, requested: &GridParams) -> (r: GridStatus)
        ensures
            r == ensure_spec(*self, *requested).0,
            r == GridStatus::AlreadyExists <==> can_reuse(*self, *requested),
    {
        if !self.image_present {
            return GridStatus::Generated;
        }
        match self.metadata {
            Some(stored) => {
                if stored == *requested {
                    GridStatus::AlreadyExists
                } else {
                    GridStatus::Generated
                }
            },
            None => GridStatus::Generated,
        }
    }

    /// What is stored once an image for `requested` has been rendered and its sidecar written.
    pub fn after_generation(requested: &GridParams) -> (r: GridArtifacts)
        ensures
            r.image_present,
            r.metadata == Some(*requested),
    {
        GridArtifacts { image_present: true, metadata: Some(*requested) }
    }
}

/// Answers a request for a grid image with parameters `requested`: the status, and what is
/// stored afterwards where rendering and the sidecar write succeed.
pub fn ensure_hex_grid(stored: &GridArtifacts, requested: &GridParams) -> (r: (GridStatus, GridArtifacts))
    ensures
        r == ensure_spec(*stored, *requested),
{
    let status = stored.status_for(requested);
    match status {
        GridStatus::AlreadyExists => (status, *stored),
        GridStatus::Generated => (status, GridArtifacts::after_generation(requested)),
    }
}

/// Asking twice for the same parameters renders at most once: the second request finds the
/// image and its sidecar and leaves both as they are.
pub proof fn lemma_repeat_request_reuses(stored: GridArtifacts, requested: GridParams)
    ensures
        ensure_spec(ensure_spec(stored, requested).1, requested) == (
            GridStatus::AlreadyExists,
            ensure_spec(stored, requested).1,
        ),
{
}

/// After a request for `first`, a request whose parameters differ in any field renders the
/// image anew and records the new parameters.
pub proof fn lemma_changed_request_regenerates(
    stored: GridArtifacts,
    first: GridParams,
    second: GridParams,
)
    requires
        first != second,
    ensures
        ensure_spec(ensure_spec(stored, first).1, second) == (
            GridStatus::Generated,
            GridArtifacts { image_present: true, metadata: Some(second) },
        ),
{
}

} // verus!
