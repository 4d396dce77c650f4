pub mod header;
pub mod laws;
pub mod segments;

pub use header::ExecutableHeader;
pub use segments::{Segment, SegmentHeader};

use crate::codec::{low32, low_bits, write_bytes};
use crate::object_file::placed::named;
use crate::object_file::frame_count;
use crate::serializable::{Architecture, Serializable, SerializationError};
use crate::sequence::map_values_push;
use crate::symbols::{with_symbols, SymbolTable, SymbolTableView};
use segments::common::SegmentView;
use segments::flags::SegmentFlags;
use vstd::prelude::*;
use vstd::slice::slice_subrange;

verus! {

/// Loadable segments linked for one architecture, with the address at which
/// execution starts.
#[derive(Debug)]
pub struct Executable {
    header: ExecutableHeader,
    segments: Vec<Segment>,
}

/// What an executable is: its architecture, its entry point in text-bytes,
/// and its segments, in order.
pub ghost struct ExecutableView {
    pub architecture: Architecture,
    pub entry_point: u64,
    pub segments: Seq<SegmentView>,
}

/// What each of some segments is, in order.
pub open spec fn segment_views(segments: Seq<Segment>) -> Seq<SegmentView> {
    segments.map_values(|s: Segment| s@)
}

impl View for Executable {
    type V = ExecutableView;

    closed spec fn view(&self) -> ExecutableView {
        ExecutableView {
            architecture: self.header.architecture,
            entry_point: self.header.entry_point,
            segments: segment_views(self.segments@),
        }
    }
}

/// The symbol table of an executable: the symbols of every segment, each
/// under the number of its segment.
pub open spec fn gathered_segment_symbols(segments: Seq<SegmentView>) -> SymbolTableView
    decreases segments.len(),
{
    if segments.len() == 0 {
        SymbolTableView::empty()
    } else {
        with_symbols(
            gathered_segment_symbols(segments.drop_last()),
            low32((segments.len() - 1) as nat),
            segments.last().symbols,
        )
    }
}

/// The headers of the segments, one after the other.
pub open spec fn segment_headers_bytes(segments: Seq<SegmentView>) -> Seq<u8>
    decreases segments.len(),
{
    if segments.len() == 0 {
        Seq::empty()
    } else {
        segment_headers_bytes(segments.drop_last()) + segments.last().header().spec_wire()
    }
}

/// The payloads of the segments, one after the other.
pub open spec fn segment_payloads_bytes(segments: Seq<SegmentView>) -> Seq<u8>
    decreases segments.len(),
{
    if segments.len() == 0 {
        Seq::empty()
    } else {
        segment_payloads_bytes(segments.drop_last()) + segments.last().payload()
    }
}

/// The header of the special segment that carries the symbol table: the
/// number of rows stands where the size does, and the number of bytes
/// where the bit count does.
pub open spec fn symbol_segment_header(table: SymbolTableView) -> SegmentHeader {
    SegmentHeader {
        address_space_start: 0,
        address_space_size: table.entries.len() as u64,
        disk_bit_count: table.payload().len() as usize,
        flags: SegmentFlags { executable: false, writable: false, readable: false, special: true },
    }
}

/// Header `k` of an executable: too short when the file ends before the
/// header does.
pub open spec fn segment_header_at(data: Seq<u8>, k: nat) -> Result<
    SegmentHeader,
    SerializationError,
> {
    if data.len() < 17 + 25 * k + 25 {
        Err(SerializationError::DataTooShort)
    } else {
        match SegmentHeader::parse(data.subrange((17 + 25 * k) as int, data.len() as int)) {
            Ok((_, header)) => Ok(header),
            Err(e) => Err(e),
        }
    }
}

/// The first `count` headers of an executable, or the error of the first
/// among them that cannot be read.
pub open spec fn segment_headers_at(data: Seq<u8>, count: nat) -> Result<
    Seq<SegmentHeader>,
    SerializationError,
>
    decreases count,
{
    if count == 0 {
        Ok(Seq::empty())
    } else {
        match segment_headers_at(data, (count - 1) as nat) {
            Err(e) => Err(e),
            Ok(headers) => match segment_header_at(data, (count - 1) as nat) {
                Ok(header) => Ok(headers.push(header)),
                Err(e) => Err(e),
            },
        }
    }
}

/// Whether no header is that of a special segment.
pub open spec fn none_special(headers: Seq<SegmentHeader>) -> bool {
    forall|i: int| 0 <= i < headers.len() ==> !(#[trigger] headers[i]).flags.special
}

/// Whether `headers` end with the header of a special segment and hold no
/// other such header.
pub open spec fn well_framed_segments(headers: Seq<SegmentHeader>) -> bool {
    &&& headers.len() >= 1
    &&& headers[headers.len() - 1].flags.special
    &&& none_special(headers.take(headers.len() - 1))
}

/// The length in bytes of the payloads that `headers` frame, taken together.
pub open spec fn segment_payloads_len(headers: Seq<SegmentHeader>) -> nat
    decreases headers.len(),
{
    if headers.len() == 0 {
        0
    } else {
        segment_payloads_len(headers.drop_last()) + headers.last().spec_segment_size()
    }
}

/// The first `count` segments of an executable whose payloads start at byte
/// `start`, each with its symbols from the table, or the error of the first
/// among them that cannot be read.
pub open spec fn segments_at(
    data: Seq<u8>,
    start: nat,
    headers: Seq<SegmentHeader>,
    symbols: SymbolTableView,
    count: nat,
) -> Result<Seq<SegmentView>, SerializationError>
    decreases count,
{
    if count == 0 {
        Ok(Seq::empty())
    } else {
        let idx = (count - 1) as nat;
        match segments_at(data, start, headers, symbols, idx) {
            Err(e) => Err(e),
            Ok(segments) => match SegmentView::parse(
                headers[idx as int],
                data.subrange(
                    (start + segment_payloads_len(headers.take(idx as int))) as int,
                    data.len() as int,
                ),
                symbols.symbols_of(low32(idx)),
            ) {
                Ok((_, segment)) => Ok(segments.push(segment)),
                Err(e) => Err(e),
            },
        }
    }
}

/// The address in text-bytes of `width` bits at which the first of
/// `segments` that defines a symbol named `name` holds that symbol: the
/// start of the segment and the text-bytes up to the symbol. There is none
/// when no segment defines the name, when `width` is 0, and when the address
/// is beyond the range of `u64`.
pub open spec fn entry_point_of(segments: Seq<SegmentView>, name: Seq<char>, width: nat) -> Option<
    u64,
>
    decreases segments.len(),
{
    if segments.len() == 0 {
        None
    } else {
        match named(segments[0].symbols, name) {
            Some(address) => if width > 0 && segments[0].address_space_start + address as nat
                / width <= u64::MAX {
                Some((segments[0].address_space_start + address as nat / width) as u64)
            } else {
                None
            },
            None => entry_point_of(segments.drop_first(), name, width),
        }
    }
}

impl ExecutableView {
    /// The bytes of the executable: the header, the segment headers with
    /// that of the symbol table last, and the payloads in the same order.
    #[verifier::opaque]
    pub open spec fn wire(self) -> Seq<u8> {
        let symbols = gathered_segment_symbols(self.segments);
        (ExecutableHeader {
            architecture: self.architecture,
            segment_count: frame_count(self.segments.len(), 1),
            entry_point: self.entry_point,
        }).spec_wire() + segment_headers_bytes(self.segments) + symbol_segment_header(
            symbols,
        ).spec_wire() + segment_payloads_bytes(self.segments) + symbols.payload()
    }

    /// What decoding makes of the payloads of an executable whose header is
    /// `header` and whose segment headers are `headers`. The checks come in
    /// this order, and the first that fails gives the error: the headers are
    /// well framed, else the data is invalid; the payloads of the segments
    /// end inside the data, else the data is too short; the symbol table can
    /// be read behind them; every segment can be read. What is read ends
    /// where the symbol table ends.
    #[verifier::opaque]
    pub open spec fn parse_payloads(
        data: Seq<u8>,
        header: ExecutableHeader,
        headers: Seq<SegmentHeader>,
    ) -> Result<(usize, ExecutableView), SerializationError> {
        let count = headers.len() - 1;
        let start = 17 + 25 * headers.len();
        let symbols_start = start + segment_payloads_len(headers.take(count));
        if !well_framed_segments(headers) {
            Err(SerializationError::InvalidData)
        } else if symbols_start > data.len() {
            Err(SerializationError::DataTooShort)
        } else {
            match SymbolTableView::parse_segment(
                headers[count],
                data.subrange(symbols_start as int, data.len() as int),
            ) {
                Err(e) => Err(e),
                Ok((_, symbols)) => match segments_at(
                    data,
                    start as nat,
                    headers,
                    symbols,
                    count as nat,
                ) {
                    Err(e) => Err(e),
                    Ok(segments) => Ok(
                        (
                            (symbols_start + headers[count].spec_segment_size()) as usize,
                            ExecutableView {
                                architecture: header.architecture,
                                entry_point: header.entry_point,
                                segments,
                            },
                        ),
                    ),
                },
            }
        }
    }

    /// What decoding makes of `data`: the header is read, then as many
    /// segment headers as it announces, then the payloads. The first of
    /// these that cannot be read gives the error.
    pub open spec fn parse(data: Seq<u8>) -> Result<(usize, ExecutableView), SerializationError> {
        match ExecutableHeader::parse(data) {
            Err(e) => Err(e),
            Ok((_, header)) => match segment_headers_at(data, header.segment_count as nat) {
                Err(e) => Err(e),
                Ok(headers) => ExecutableView::parse_payloads(data, header, headers),
            },
        }
    }
}

/// An error among the first headers is the error of any longer run of
/// headers.
pub proof fn segment_headers_at_error_stays(data: Seq<u8>, bad: nat, count: nat)
    requires
        bad <= count,
        segment_headers_at(data, bad) is Err,
    ensures
        segment_headers_at(data, count) == segment_headers_at(data, bad),
    decreases count,
{
    if bad < count {
        segment_headers_at_error_stays(data, bad, (count - 1) as nat);
    }
}

/// The payloads of more headers take at least as many bytes.
pub proof fn segment_payloads_len_grows(headers: Seq<SegmentHeader>, fewer: int, more: int)
    requires
        0 <= fewer <= more <= headers.len(),
    ensures
        segment_payloads_len(headers.take(fewer)) <= segment_payloads_len(headers.take(more)),
    decreases more - fewer,
{
    if fewer < more {
        segment_payloads_len_grows(headers, fewer, more - 1);
        assert(headers.take(more).drop_last() =~= headers.take(more - 1));
    }
}

/// An error among the first segments is the error of any longer run of
/// segments.
pub proof fn segments_at_error_stays(
    data: Seq<u8>,
    start: nat,
    headers: Seq<SegmentHeader>,
    symbols: SymbolTableView,
    bad: nat,
    count: nat,
)
    requires
        bad <= count,
        segments_at(data, start, headers, symbols, bad) is Err,
    ensures
        segments_at(data, start, headers, symbols, count) == segments_at(
            data,
            start,
            headers,
            symbols,
            bad,
        ),
    decreases count,
{
    if bad < count {
        segments_at_error_stays(data, start, headers, symbols, bad, (count - 1) as nat);
    }
}

/// Reads the `count` segment headers that follow the header of an
/// executable.
fn read_segment_headers(data: &[u8], count: u64) -> (result: Result<
    Vec<SegmentHeader>,
    SerializationError,
>)
    requires
        data.len() >= 17,
    ensures
        match segment_headers_at(data@, count as nat) {
            Ok(headers) => result matches Ok(read) && read@ == headers && read@.len() == count
                && 17 + 25 * count <= data.len(),
            Err(e) => result == Err::<Vec<SegmentHeader>, SerializationError>(e),
        },
{
    let mut headers: Vec<SegmentHeader> = Vec::new();
    let mut offset: usize = 17;
    let mut k: u64 = 0;
    while k < count
        invariant
            k <= count,
            offset == 17 + 25 * k,
            offset <= data.len(),
            headers@.len() == k,
            segment_headers_at(data@, k as nat) == Ok::<Seq<SegmentHeader>, SerializationError>(
                headers@,
            ),
        decreases count - k,
    {
        if data.len() - offset < 25 {
            proof {
                assert(segment_header_at(data@, k as nat) is Err);
                segment_headers_at_error_stays(data@, (k + 1) as nat, count as nat);
            }
            return Err(SerializationError::DataTooShort);
        }
        match SegmentHeader::deserialize(slice_subrange(data, offset, data.len())) {
            Ok((_, header)) => {
                headers.push(header);
                offset = offset + 25;
            },
            Err(e) => {
                proof {
                    segment_headers_at_error_stays(data@, (k + 1) as nat, count as nat);
                }
                return Err(e);
            },
        }
        k = k + 1;
    }
    Ok(headers)
}

/// Whether none of the first `count` headers is that of a special segment.
fn no_special(headers: &Vec<SegmentHeader>, count: usize) -> (none: bool)
    requires
        count <= headers@.len(),
    ensures
        none == none_special(headers@.take(count as int)),
{
    let mut i: usize = 0;
    while i < count
        invariant
            i <= count,
            count <= headers@.len(),
            none_special(headers@.take(i as int)),
        decreases count - i,
    {
        if headers[i].flags.special {
            assert(headers@.take(count as int)[i as int].flags.special);
            return false;
        }
        i = i + 1;
        assert forall|k: int| 0 <= k < i implies !(#[trigger] headers@.take(
            i as int,
        )[k]).flags.special by {
            if k < i - 1 {
                assert(!headers@.take(i - 1)[k].flags.special);
            }
        }
    }
    true
}

/// Checks that the payloads of the first `count` headers end inside `data`
/// when they start at byte `start`, and gives the byte behind them.
fn segment_payloads_end(data: &[u8], start: usize, headers: &Vec<SegmentHeader>, count: usize)
    -> (end: Option<usize>)
    requires
        start <= data.len(),
        count <= headers@.len(),
    ensures
        match end {
            Some(end) => end == start + segment_payloads_len(headers@.take(count as int)) && end
                <= data.len(),
            None => start + segment_payloads_len(headers@.take(count as int)) > data.len(),
        },
{
    let mut end: usize = start;
    let mut i: usize = 0;
    while i < count
        invariant
            i <= count,
            count <= headers@.len(),
            end == start + segment_payloads_len(headers@.take(i as int)),
            end <= data.len(),
        decreases count - i,
    {
        let size = headers[i].segment_size();
        proof {
            assert(headers@.take(i + 1).drop_last() =~= headers@.take(i as int));
            segment_payloads_len_grows(headers@, i + 1, count as int);
        }
        if size > data.len() - end {
            return None;
        }
        end = end + size;
        i = i + 1;
    }
    Some(end)
}

/// Reads the first `count` segments, whose payloads start at byte `start`.
fn read_segments(
    data: &[u8],
    start: usize,
    headers: &Vec<SegmentHeader>,
    symbols: &SymbolTable,
    count: usize,
) -> (result: Result<Vec<Segment>, SerializationError>)
    requires
        count <= headers@.len(),
        none_special(headers@.take(count as int)),
        start + segment_payloads_len(headers@.take(count as int)) <= data.len(),
    ensures
        match segments_at(data@, start as nat, headers@, symbols@, count as nat) {
            Ok(segments) => result matches Ok(read) && segment_views(read@) == segments,
            Err(e) => result == Err::<Vec<Segment>, SerializationError>(e),
        },
{
    let mut segments: Vec<Segment> = Vec::new();
    let mut offset: usize = start;
    let mut idx: usize = 0;
    assert(segment_views(segments@) =~= Seq::empty());
    while idx < count
        invariant
            idx <= count,
            count <= headers@.len(),
            none_special(headers@.take(count as int)),
            start + segment_payloads_len(headers@.take(count as int)) <= data.len(),
            offset == start + segment_payloads_len(headers@.take(idx as int)),
            segments_at(data@, start as nat, headers@, symbols@, idx as nat) == Ok::<
                Seq<SegmentView>,
                SerializationError,
            >(segment_views(segments@)),
        decreases count - idx,
    {
        proof {
            segment_payloads_len_grows(headers@, idx as int, count as int);
            segment_payloads_len_grows(headers@, idx + 1, count as int);
            assert(headers@.take(idx + 1).drop_last() =~= headers@.take(idx as int));
            assert(!headers@.take(count as int)[idx as int].flags.special);
        }
        let segment_symbols = symbols.get_symbols(low_bits(idx));
        match Segment::deserialize(
            &headers[idx],
            slice_subrange(data, offset, data.len()),
            segment_symbols,
        ) {
            Ok((size, segment)) => {
                proof {
                    map_values_push(segments@, segment, |s: Segment| s@);
                }
                segments.push(segment);
                offset = offset + size;
            },
            Err(e) => {
                proof {
                    segments_at_error_stays(
                        data@,
                        start as nat,
                        headers@,
                        symbols@,
                        (idx + 1) as nat,
                        count as nat,
                    );
                }
                return Err(e);
            },
        }
        idx = idx + 1;
    }
    Ok(segments)
}

/// Copies a list of segments.
pub fn clone_segments(segments: &Vec<Segment>) -> (copy: Vec<Segment>)
    ensures
        segment_views(copy@) == segment_views(segments@),
{
    let mut copy: Vec<Segment> = Vec::new();
    let mut i: usize = 0;
    while i < segments.len()
        invariant
            i <= segments@.len(),
            copy@.len() == i,
            forall|k: int| 0 <= k < i ==> (#[trigger] copy@[k])@ == segments@[k]@,
        decreases segments@.len() - i,
    {
        copy.push(segments[i].clone());
        i = i + 1;
    }
    assert(segment_views(copy@) =~= segment_views(segments@));
    copy
}

impl Clone for Executable {
    fn clone(&self) -> (copy: Self)
        ensures
            copy@ == self@,
    {
        Executable { header: self.header, segments: clone_segments(&self.segments) }
    }
}

impl Serializable for Executable {
    open spec fn wire(&self) -> Seq<u8> {
        self@.wire()
    }

    open spec fn decoded(data: Seq<u8>, result: Result<(usize, Self), SerializationError>) -> bool {
        match ExecutableView::parse(data) {
            Ok((consumed, view)) => result matches Ok((n, executable)) && n == consumed
                && executable@ == view,
            Err(e) => result == Err::<(usize, Self), SerializationError>(e),
        }
    }

    fn serialize(&self) -> (out: Vec<u8>) {
        let ghost views = segment_views(self.segments@);
        let mut symbol_table = SymbolTable::new();
        let mut headers: Vec<u8> = Vec::new();
        let mut payloads: Vec<u8> = Vec::new();
        let mut i: usize = 0;
        while i < self.segments.len()
            invariant
                i <= self.segments@.len(),
                views == segment_views(self.segments@),
                symbol_table@ == gathered_segment_symbols(views.take(i as int)),
                headers@ == segment_headers_bytes(views.take(i as int)),
                payloads@ == segment_payloads_bytes(views.take(i as int)),
            decreases self.segments@.len() - i,
        {
            let segment = &self.segments[i];
            proof {
                assert(views.take(i + 1).drop_last() =~= views.take(i as int));
                assert(views.take(i + 1).last() == segment@);
            }
            let symbols = segment.symbols();
            symbol_table.add_symbols(low_bits(i), &symbols);
            let (header, bytes) = segment.serialize();
            let header_bytes = header.serialize();
            write_bytes(&mut headers, header_bytes.as_slice());
            write_bytes(&mut payloads, bytes.as_slice());
            i = i + 1;
        }
        assert(views.take(i as int) =~= views);
        let header = ExecutableHeader {
            architecture: self.header.architecture,
            segment_count: (self.segments.len() as u64).wrapping_add(1),
            entry_point: self.header.entry_point,
        };
        let mut out = header.serialize();
        let (symbol_header, symbol_data) = symbol_table.serialize_as_segment();
        let symbol_header_bytes = symbol_header.serialize();
        write_bytes(&mut out, headers.as_slice());
        write_bytes(&mut out, symbol_header_bytes.as_slice());
        write_bytes(&mut out, payloads.as_slice());
        write_bytes(&mut out, symbol_data.as_slice());
        assert(header.segment_count == frame_count(views.len(), 1));
        reveal(ExecutableView::wire);
        assert(out@ =~= self@.wire());
        out
    }

    fn deserialize(data: &[u8]) -> (result: Result<(usize, Self), SerializationError>) {
        reveal(ExecutableView::parse_payloads);
        let header = match ExecutableHeader::deserialize(data) {
            Ok((_, header)) => header,
            Err(e) => {
                return Err(e);
            },
        };
        let headers = match read_segment_headers(data, header.segment_count) {
            Ok(headers) => headers,
            Err(e) => {
                return Err(e);
            },
        };
        let segment_count = headers.len();
        if segment_count < 1 {
            return Err(SerializationError::InvalidData);
        }
        let count = segment_count - 1;
        if !headers[count].flags.special {
            return Err(SerializationError::InvalidData);
        }
        if !no_special(&headers, count) {
            return Err(SerializationError::InvalidData);
        }
        let start = 17 + 25 * segment_count;
        let symbols_start = match segment_payloads_end(data, start, &headers, count) {
            Some(end) => end,
            None => {
                return Err(SerializationError::DataTooShort);
            },
        };
        let symbol_table = match SymbolTable::deserialize_segment(
            &headers[count],
            slice_subrange(data, symbols_start, data.len()),
        ) {
            Ok((_, table)) => table,
            Err(e) => {
                return Err(e);
            },
        };
        let segments = match read_segments(data, start, &headers, &symbol_table, count) {
            Ok(segments) => segments,
            Err(e) => {
                return Err(e);
            },
        };
        Ok((symbols_start + headers[count].segment_size(), Executable { header, segments }))
    }
}

impl Executable {
    /// An executable of `segments` whose entry point is 0.
    pub fn new(architecture: Architecture, segments: Vec<Segment>) -> (executable: Self)
        ensures
            executable@ == (ExecutableView {
                architecture,
                entry_point: 0,
                segments: segment_views(segments@),
            }),
    {
        Executable { header: ExecutableHeader::new(architecture, 0), segments }
    }

    pub fn architecture(&self) -> (architecture: Architecture)
        ensures
            architecture == self@.architecture,
    {
        self.header.architecture
    }

    /// The address at which execution starts, in text-bytes.
    pub fn entry_point(&self) -> (entry_point: u64)
        ensures
            entry_point == self@.entry_point,
    {
        self.header.entry_point
    }

    /// The address, in text-bytes, of the symbol named `symbol` in the first
    /// segment that defines one: what to set the entry point to for
    /// execution to start at that symbol.
    pub fn find_entry_point(&self, symbol: &str) -> (entry_point: Option<u64>)
        ensures
            entry_point == entry_point_of(
                self@.segments,
                symbol@,
                self@.architecture.spec_text_byte_width(),
            ),
    {
        let width = self.header.architecture.text_byte_width();
        let ghost segments = self@.segments;
        let mut i: usize = 0;
        assert(segments.skip(0) =~= segments);
        while i < self.segments.len()
            invariant
                i <= self.segments@.len(),
                width == self@.architecture.spec_text_byte_width(),
                width > 0,
                segments == self@.segments,
                segments == segment_views(self.segments@),
                entry_point_of(segments, symbol@, width as nat) == entry_point_of(
                    segments.skip(i as int),
                    symbol@,
                    width as nat,
                ),
            decreases self.segments@.len() - i,
        {
            let segment = &self.segments[i];
            proof {
                assert(segments.skip(i as int)[0] == segment@);
                assert(segments.skip(i as int).drop_first() =~= segments.skip(i + 1));
            }
            match segment.find_symbol(symbol) {
                Some(address) => {
                    let words = (address.0 / width) as u64;
                    return segment.address_space_start.checked_add(words);
                },
                None => {},
            }
            i = i + 1;
        }
        None
    }

    /// Makes `entry_point`, in text-bytes, the address at which execution
    /// starts.
    pub fn set_entry_point(&mut self, entry_point: u64)
        ensures
            final(self)@ == (ExecutableView { entry_point, ..old(self)@ }),
    {
        self.header.entry_point = entry_point;
    }

    /// The segments, in order.
    pub fn segments(&self) -> (segments: &[Segment])
        ensures
            segment_views(segments@) == self@.segments,
    {
        self.segments.as_slice()
    }

    /// The segments, in order, to be changed in place. The architecture and
    /// the entry point stay.
    pub fn segments_mut(&mut self) -> (segments: &mut Vec<Segment>)
        ensures
            segment_views(segments@) == old(self)@.segments,
            final(self)@ == (ExecutableView {
                segments: segment_views(final(segments)@),
                ..old(self)@
            }),
    {
        &mut self.segments
    }
}

} // verus!
