//! The header of a request: it tells whether both ends lay out shared data alike.
use crate::bytes::{decode_u16, encode_u16, law_u16_round_trip, u16_bytes, u16_value};
use crate::error::HeaderError;
use crate::host::{Host, HostView};
use crate::index::INDEX_SIZE;
use vstd::prelude::*;

verus! {

/// Bytes of a header: four 16 bit integers.
pub const HEADER_SIZE: usize = 8;

/// Marks a request of this protocol.
pub const MAGIC: u16 = 0x1f0c;

/// The version of the layout of a request.
pub const VERSION: u16 = 1;

/// The header that a machine writes: the magic, the version, the cacheline size and the size of an
/// atomic index.
pub open spec fn header_bytes(host: HostView) -> Seq<u8> {
    u16_bytes(host.byte_order, MAGIC) + u16_bytes(host.byte_order, VERSION) + u16_bytes(
        host.byte_order,
        host.cacheline_size as u16,
    ) + u16_bytes(host.byte_order, INDEX_SIZE as u16)
}

/// The 16 bit integer of a header that has `field` others in front of it.
pub open spec fn header_field(host: HostView, header: Seq<u8>, field: int) -> int {
    u16_value(host.byte_order, header.subrange(2 * field, 2 * field + 2))
}

/// Why a machine does not accept a header, if it does not. The fields are looked at in order.
pub open spec fn header_fault(host: HostView, header: Seq<u8>) -> Option<HeaderError> {
    if header.len() < HEADER_SIZE {
        Some(HeaderError::SizeExceedsRequest)
    } else if header_field(host, header, 0) != MAGIC {
        Some(HeaderError::MagicMismatch)
    } else if header_field(host, header, 1) != VERSION {
        Some(HeaderError::VersionMismatch)
    } else if header_field(host, header, 2) != host.cacheline_size {
        Some(HeaderError::CachelineSizeMismatch)
    } else if header_field(host, header, 3) != INDEX_SIZE {
        Some(HeaderError::AtomicSizeMismatch)
    } else {
        None
    }
}

/// Where the fields of a header are.
proof fn lemma_header_fields(writer: HostView, header: Seq<u8>)
    requires
        writer.cacheline_size <= u16::MAX,
        header.len() >= HEADER_SIZE,
        header.subrange(0, HEADER_SIZE as int) == header_bytes(writer),
    ensures
        header.subrange(0, 2) == u16_bytes(writer.byte_order, MAGIC),
        header.subrange(2, 4) == u16_bytes(writer.byte_order, VERSION),
        header.subrange(4, 6) == u16_bytes(writer.byte_order, writer.cacheline_size as u16),
        header.subrange(6, 8) == u16_bytes(writer.byte_order, INDEX_SIZE as u16),
{
    let h = header.subrange(0, HEADER_SIZE as int);
    law_u16_round_trip(writer.byte_order, MAGIC);
    law_u16_round_trip(writer.byte_order, VERSION);
    law_u16_round_trip(writer.byte_order, writer.cacheline_size as u16);
    law_u16_round_trip(writer.byte_order, INDEX_SIZE as u16);
    assert(header.subrange(0, 2) =~= h.subrange(0, 2));
    assert(header.subrange(2, 4) =~= h.subrange(2, 4));
    assert(header.subrange(4, 6) =~= h.subrange(4, 6));
    assert(header.subrange(6, 8) =~= h.subrange(6, 8));
    assert(h.subrange(0, 2) =~= u16_bytes(writer.byte_order, MAGIC));
    assert(h.subrange(2, 4) =~= u16_bytes(writer.byte_order, VERSION));
    assert(h.subrange(4, 6) =~= u16_bytes(writer.byte_order, writer.cacheline_size as u16));
    assert(h.subrange(6, 8) =~= u16_bytes(writer.byte_order, INDEX_SIZE as u16));
}

/// A machine accepts a header that it wrote, and refuses that of a machine of the same byte order
/// with another cacheline size.
pub proof fn law_header_tells_machines_apart(reader: HostView, writer: HostView, header: Seq<u8>)
    requires
        reader.is_valid(),
        writer.is_valid(),
        reader.byte_order == writer.byte_order,
        header.len() >= HEADER_SIZE,
        header.subrange(0, HEADER_SIZE as int) == header_bytes(writer),
    ensures
        header_fault(reader, header) == if reader.cacheline_size == writer.cacheline_size {
            None::<HeaderError>
        } else {
            Some(HeaderError::CachelineSizeMismatch)
        },
{
    lemma_header_fields(writer, header);
    law_u16_round_trip(writer.byte_order, MAGIC);
    law_u16_round_trip(writer.byte_order, VERSION);
    law_u16_round_trip(writer.byte_order, writer.cacheline_size as u16);
    law_u16_round_trip(writer.byte_order, INDEX_SIZE as u16);
}

/// A header written in the other byte order is taken for something else.
pub proof fn law_header_tells_byte_orders_apart(
    reader: HostView,
    writer: HostView,
    header: Seq<u8>,
)
    requires
        writer.is_valid(),
        reader.byte_order != writer.byte_order,
        header.len() >= HEADER_SIZE,
        header.subrange(0, HEADER_SIZE as int) == header_bytes(writer),
    ensures
        header_fault(reader, header) == Some(HeaderError::MagicMismatch),
{
    lemma_header_fields(writer, header);
    reveal_with_fuel(crate::bytes::digit, 2);
}

/// Writes the header of this machine to the front of a request.
pub fn write_header(host: &Host, request: &mut Vec<u8>)
    requires
        old(request)@.len() >= HEADER_SIZE,
    ensures
        final(request)@.len() == old(request)@.len(),
        final(request)@.subrange(0, HEADER_SIZE as int) == header_bytes(host@),
        final(request)@.skip(HEADER_SIZE as int) == old(request)@.skip(HEADER_SIZE as int),
{
    let order = host.byte_order();
    let magic: [u8; 2] = encode_u16(order, MAGIC);
    let version: [u8; 2] = encode_u16(order, VERSION);
    let cacheline: [u8; 2] = encode_u16(order, host.cacheline_size());
    let atomic: [u8; 2] = encode_u16(order, INDEX_SIZE as u16);
    request.set(0, magic[0]);
    request.set(1, magic[1]);
    request.set(2, version[0]);
    request.set(3, version[1]);
    request.set(4, cacheline[0]);
    request.set(5, cacheline[1]);
    request.set(6, atomic[0]);
    request.set(7, atomic[1]);
    proof {
        law_u16_round_trip(order, MAGIC);
        law_u16_round_trip(order, VERSION);
        law_u16_round_trip(order, host@.cacheline_size as u16);
        law_u16_round_trip(order, INDEX_SIZE as u16);
        assert(request@.subrange(0, 8) =~= header_bytes(host@));
        assert(request@.skip(8) =~= old(request)@.skip(8));
    }
}

/// Checks that a header was written by a machine that lays out shared data as this one does.
pub fn verify_header(host: &Host, header: &[u8]) -> (result: Result<(), HeaderError>)
    ensures
        result == match header_fault(host@, header@) {
            Some(e) => Err::<(), HeaderError>(e),
            None => Ok::<(), HeaderError>(()),
        },
{
    if header.len() < HEADER_SIZE {
        return Err(HeaderError::SizeExceedsRequest);
    }
    let order = host.byte_order();
    if decode_u16(order, header, 0) != MAGIC {
        return Err(HeaderError::MagicMismatch);
    }
    if decode_u16(order, header, 2) != VERSION {
        return Err(HeaderError::VersionMismatch);
    }
    if decode_u16(order, header, 4) != host.cacheline_size() {
        return Err(HeaderError::CachelineSizeMismatch);
    }
    if decode_u16(order, header, 6) != INDEX_SIZE as u16 {
        return Err(HeaderError::AtomicSizeMismatch);
    }
    Ok(())
}

} // verus!
