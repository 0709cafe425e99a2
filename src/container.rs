use vstd::prelude::*;

verus! {

/// Byte order of the integers in a capture file.
#[derive(Clone, Copy, Debug, PartialEq, Eq, Structural)]
pub enum ByteOrder {
    LittleEndian,
    BigEndian,
}

/// Unit of the sub-second field of each record.
#[derive(Clone, Copy, Debug, PartialEq, Eq, Structural)]
pub enum Precision {
    Microsecond,
    Nanosecond,
}

impl Precision {
    pub open spec fn scale_spec(self) -> int {
        match self {
            Precision::Microsecond => 1000,
            Precision::Nanosecond => 1,
        }
    }

    /// Multiplier from the sub-second unit to nanoseconds.
    pub fn scale(&self) -> (r: u32)
        ensures
            r == self.scale_spec(),
    {
        match self {
            Precision::Microsecond => 1000,
            Precision::Nanosecond => 1,
        }
    }
}

/// What the file header fixes for the whole file.
#[derive(Clone, Copy, Debug, PartialEq, Eq, Structural)]
pub struct ContainerContext {
    pub order: ByteOrder,
    pub precision: Precision,
    /// Offset of the recorder's clock from UTC, in seconds.
    pub utc_offset: i64,
}

/// Why decoding a capture file stopped.
#[derive(Clone, Copy, Debug, PartialEq, Eq, Structural)]
pub enum ParseError {
    /// The header's magic number is none of the four known ones.
    InvalidContainerFormat,
    /// A moment falls outside what a calendar date-time can hold.
    InvalidTimestamp,
    /// A text field holds a byte that is not ASCII, or a number field a non-digit.
    MalformedField,
    /// The data ends in the middle of a header or a quote record.
    Truncated,
}

/// Size of the file header; records start right after it.
pub const FILE_HEADER_SIZE: usize = 24;

pub open spec fn u32_of(b0: u8, b1: u8, b2: u8, b3: u8, order: ByteOrder) -> int {
    match order {
        ByteOrder::LittleEndian => b0 + b1 * 0x100 + b2 * 0x1_0000 + b3 * 0x100_0000,
        ByteOrder::BigEndian => b3 + b2 * 0x100 + b1 * 0x1_0000 + b0 * 0x100_0000,
    }
}

/// The four bytes at `pos` as an unsigned integer in the given order.
pub open spec fn u32_at(data: Seq<u8>, pos: int, order: ByteOrder) -> int {
    u32_of(data[pos], data[pos + 1], data[pos + 2], data[pos + 3], order)
}

fn u32_from_bytes(b0: u8, b1: u8, b2: u8, b3: u8) -> (r: u32)
    ensures
        r == b0 + b1 * 0x100 + b2 * 0x1_0000 + b3 * 0x100_0000,
{
    assert(b1 * 0x100 <= 0xff00 && b2 * 0x1_0000 <= 0xff_0000 && b3 * 0x100_0000 <= 0xff00_0000)
        by (nonlinear_arith)
        requires
            b1 <= 0xff,
            b2 <= 0xff,
            b3 <= 0xff,
    ;
    b0 as u32 + b1 as u32 * 0x100 + b2 as u32 * 0x1_0000 + b3 as u32 * 0x100_0000
}

/// Reads the four bytes at `pos` as an unsigned integer in the given order.
pub fn read_u32(data: &[u8], pos: usize, order: ByteOrder) -> (r: u32)
    requires
        pos + 4 <= data@.len(),
    ensures
        r == u32_at(data@, pos as int, order),
{
    let _len = data.len();
    match order {
        ByteOrder::LittleEndian => u32_from_bytes(data[pos], data[pos + 1], data[pos + 2], data[pos + 3]),
        ByteOrder::BigEndian => u32_from_bytes(data[pos + 3], data[pos + 2], data[pos + 1], data[pos]),
    }
}

/// Byte order and precision that a magic number announces.
pub open spec fn magic_spec(b0: u8, b1: u8, b2: u8, b3: u8) -> Option<(ByteOrder, Precision)> {
    if b0 == 0xD4 && b1 == 0xC3 && b2 == 0xB2 && b3 == 0xA1 {
        Some((ByteOrder::LittleEndian, Precision::Microsecond))
    } else if b0 == 0xA1 && b1 == 0xB2 && b2 == 0xC3 && b3 == 0xD4 {
        Some((ByteOrder::BigEndian, Precision::Microsecond))
    } else if b0 == 0x4D && b1 == 0x3C && b2 == 0xB2 && b3 == 0xA1 {
        Some((ByteOrder::LittleEndian, Precision::Nanosecond))
    } else if b0 == 0xA1 && b1 == 0xB2 && b2 == 0x3C && b3 == 0x4D {
        Some((ByteOrder::BigEndian, Precision::Nanosecond))
    } else {
        None
    }
}

/// What the file header at the start of `data` says.
pub open spec fn header_spec(data: Seq<u8>) -> Result<ContainerContext, ParseError> {
    if data.len() < 4 {
        Err(ParseError::Truncated)
    } else {
        match magic_spec(data[0], data[1], data[2], data[3]) {
            None => Err(ParseError::InvalidContainerFormat),
            Some((order, precision)) => if data.len() < 12 {
                Err(ParseError::Truncated)
            } else {
                Ok(ContainerContext { order, precision, utc_offset: u32_at(data, 8, order) as i64 })
            },
        }
    }
}

/// Reads the file header: byte order and precision from the magic number, and
/// the recorder's UTC offset. Records begin at `FILE_HEADER_SIZE`.
pub fn parse_header(data: &[u8]) -> (r: Result<ContainerContext, ParseError>)
    ensures
        r == header_spec(data@),
        r is Ok ==> 0 <= r->Ok_0.utc_offset <= u32::MAX,
{
    if data.len() < 4 {
        return Err(ParseError::Truncated);
    }
    let (b0, b1, b2, b3) = (data[0], data[1], data[2], data[3]);
    let (order, precision) = if b0 == 0xD4 && b1 == 0xC3 && b2 == 0xB2 && b3 == 0xA1 {
        (ByteOrder::LittleEndian, Precision::Microsecond)
    } else if b0 == 0xA1 && b1 == 0xB2 && b2 == 0xC3 && b3 == 0xD4 {
        (ByteOrder::BigEndian, Precision::Microsecond)
    } else if b0 == 0x4D && b1 == 0x3C && b2 == 0xB2 && b3 == 0xA1 {
        (ByteOrder::LittleEndian, Precision::Nanosecond)
    } else if b0 == 0xA1 && b1 == 0xB2 && b2 == 0x3C && b3 == 0x4D {
        (ByteOrder::BigEndian, Precision::Nanosecond)
    } else {
        return Err(ParseError::InvalidContainerFormat);
    };
    if data.len() < 12 {
        return Err(ParseError::Truncated);
    }
    let utc_offset = read_u32(data, 8, order) as i64;
    Ok(ContainerContext { order, precision, utc_offset })
}

} // verus!
