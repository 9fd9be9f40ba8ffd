//! What can go wrong.
use nix::errno::Errno;
use vstd::prelude::*;
use vstd::std_specs::convert::FromSpec;

verus! {

/// The error number of a system call, as the `nix` crate has it. It is only carried along.
#[verifier::external_type_specification]
#[verifier::external_body]
pub struct ExErrno(nix::errno::Errno);

/// A place in shared memory cannot be had.
#[derive(Clone, Copy, Debug, PartialEq, Eq, Structural)]
pub enum ShmMapError {
    OutOfBounds,
    Misalignment,
}

/// The header of a request does not fit this machine or this library.
#[derive(Clone, Copy, Debug, PartialEq, Eq, Structural)]
pub enum HeaderError {
    SizeExceedsRequest,
    MagicMismatch,
    VersionMismatch,
    CachelineSizeMismatch,
    AtomicSizeMismatch,
}

/// A resource of a channel group cannot be had.
#[derive(Debug)]
pub enum ResourceError {
    InvalidArgument,
    Errno(Errno),
    ShmMapError(ShmMapError),
}

/// A request cannot be read.
#[derive(Clone, Copy, Debug, PartialEq, Eq, Structural)]
pub enum RequestError {
    OutOfBounds,
    HeaderError(HeaderError),
}

/// A queue was damaged.
#[derive(Clone, Copy, Debug, PartialEq, Eq, Structural)]
pub enum QueueError {
    InvalidIndex,
}

/// A channel group could not be handed over.
#[derive(Debug)]
pub enum TransferError {
    ResourceError(ResourceError),
    RequestError(RequestError),
    MissingFileDescriptor,
    Rejected,
    ResponseError,
}

impl From<Errno> for ResourceError {
    fn from(e: Errno) -> (error: ResourceError) {
        ResourceError::Errno(e)
    }
}

impl vstd::std_specs::convert::FromSpecImpl<Errno> for ResourceError {
    open spec fn obeys_from_spec() -> bool {
        true
    }

    open spec fn from_spec(e: Errno) -> ResourceError {
        ResourceError::Errno(e)
    }
}

impl From<ShmMapError> for ResourceError {
    fn from(e: ShmMapError) -> (error: ResourceError) {
        ResourceError::ShmMapError(e)
    }
}

impl vstd::std_specs::convert::FromSpecImpl<ShmMapError> for ResourceError {
    open spec fn obeys_from_spec() -> bool {
        true
    }

    open spec fn from_spec(e: ShmMapError) -> ResourceError {
        ResourceError::ShmMapError(e)
    }
}

impl From<ResourceError> for TransferError {
    fn from(e: ResourceError) -> (error: TransferError) {
        TransferError::ResourceError(e)
    }
}

impl vstd::std_specs::convert::FromSpecImpl<ResourceError> for TransferError {
    open spec fn obeys_from_spec() -> bool {
        true
    }

    open spec fn from_spec(e: ResourceError) -> TransferError {
        TransferError::ResourceError(e)
    }
}

impl From<Errno> for TransferError {
    fn from(e: Errno) -> (error: TransferError) {
        TransferError::ResourceError(ResourceError::Errno(e))
    }
}

impl vstd::std_specs::convert::FromSpecImpl<Errno> for TransferError {
    open spec fn obeys_from_spec() -> bool {
        true
    }

    open spec fn from_spec(e: Errno) -> TransferError {
        TransferError::ResourceError(ResourceError::Errno(e))
    }
}

impl From<RequestError> for TransferError {
    fn from(e: RequestError) -> (error: TransferError) {
        TransferError::RequestError(e)
    }
}

impl vstd::std_specs::convert::FromSpecImpl<RequestError> for TransferError {
    open spec fn obeys_from_spec() -> bool {
        true
    }

    open spec fn from_spec(e: RequestError) -> TransferError {
        TransferError::RequestError(e)
    }
}

impl From<HeaderError> for RequestError {
    fn from(e: HeaderError) -> (error: RequestError) {
        RequestError::HeaderError(e)
    }
}

impl vstd::std_specs::convert::FromSpecImpl<HeaderError> for RequestError {
    open spec fn obeys_from_spec() -> bool {
        true
    }

    open spec fn from_spec(e: HeaderError) -> RequestError {
        RequestError::HeaderError(e)
    }
}

/// An error that is passed on is kept as it is, in the variant that is named after its kind.
pub proof fn law_errors_are_kept(
    errno: Errno,
    map: ShmMapError,
    resource: ResourceError,
    request: RequestError,
    header: HeaderError,
)
    ensures
        <ResourceError as FromSpec<Errno>>::from_spec(errno) == ResourceError::Errno(errno),
        <ResourceError as FromSpec<ShmMapError>>::from_spec(map) == ResourceError::ShmMapError(map),
        <TransferError as FromSpec<ResourceError>>::from_spec(resource)
            == TransferError::ResourceError(resource),
        <TransferError as FromSpec<Errno>>::from_spec(errno) == TransferError::ResourceError(
            ResourceError::Errno(errno),
        ),
        <TransferError as FromSpec<RequestError>>::from_spec(request)
            == TransferError::RequestError(request),
        <RequestError as FromSpec<HeaderError>>::from_spec(header) == RequestError::HeaderError(
            header,
        ),
{
}

} // verus!
