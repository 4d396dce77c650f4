use super::header::{executable_header_round_trip, ExecutableHeader};
use super::segments::common::SegmentView;
use super::segments::header::{segment_header_round_trip, SegmentHeader};
use super::{
    gathered_segment_symbols, none_special, segment_header_at, segment_headers_at,
    segment_headers_at_error_stays, segment_headers_bytes, segment_payloads_bytes,
    segment_payloads_len, segments_at, symbol_segment_header, well_framed_segments,
    ExecutableView,
};
use crate::bit_buffer::BitBuffer;
use crate::codec::{low32, packed, packed_len, unpack_packed};
use crate::object_file::frame_count;
use crate::serializable::SerializationError;
use crate::symbols::laws as symbol_laws;
use crate::symbols::laws::{plain_symbols, short_addresses};
use crate::symbols::{SymbolTableView, SymbolView};
use vstd::prelude::*;

verus! {

impl SegmentView {
    /// Whether the segment can be written down without loss: it holds as
    /// many bits as it says, a bit buffer can hold them, it is not special,
    /// its names are plain, and its addresses fit in 32 bits.
    pub open spec fn storable(self) -> bool {
        &&& self.bits.len() == self.disk_bit_count
        &&& self.bits.len() <= BitBuffer::spec_max_len()
        &&& !self.flags.special
        &&& plain_symbols(self.symbols)
        &&& short_addresses(self.symbols)
    }
}

impl ExecutableView {
    /// Whether the executable can be written down without loss: every
    /// segment can, the counts of segments and symbols and the length of the
    /// names fit in 32 bits, and the length of the whole fits in a `usize`.
    pub open spec fn storable(self) -> bool {
        &&& self.segments.len() + 1 < 0x1_0000_0000
        &&& forall|i: int| 0 <= i < self.segments.len() ==> (#[trigger] self.segments[i]).storable()
        &&& gathered_segment_symbols(self.segments).entries.len() < 0x1_0000_0000
        &&& gathered_segment_symbols(self.segments).names.len() < 0x1_0000_0000
        &&& self.wire().len() <= usize::MAX
    }

    /// The header that opens the written executable.
    pub open spec fn header(self) -> ExecutableHeader {
        ExecutableHeader {
            architecture: self.architecture,
            segment_count: frame_count(self.segments.len(), 1),
            entry_point: self.entry_point,
        }
    }

    /// The byte at which the payloads start in the written executable.
    pub open spec fn payloads_start(self) -> int {
        17 + 25 * (self.segments.len() as int + 1)
    }

    /// The byte at which the symbol table starts in the written executable.
    pub open spec fn symbols_start(self) -> int {
        self.payloads_start() + segment_payloads_bytes(self.segments).len()
    }
}

/// The headers of an executable, in the order in which they are written:
/// those of the segments, then that of the symbol table.
pub open spec fn written_headers(executable: ExecutableView) -> Seq<SegmentHeader> {
    executable.segments.map_values(|s: SegmentView| s.header()).push(
        symbol_segment_header(gathered_segment_symbols(executable.segments)),
    )
}

/// The symbol table of more segments has at least as many bytes of names and
/// at least as many rows.
pub proof fn gathered_symbols_grow(segments: Seq<SegmentView>, fewer: int, more: int)
    requires
        0 <= fewer <= more <= segments.len(),
    ensures
        gathered_segment_symbols(segments.take(fewer)).names.len() <= gathered_segment_symbols(
            segments.take(more),
        ).names.len(),
        gathered_segment_symbols(segments.take(fewer)).entries.len() <= gathered_segment_symbols(
            segments.take(more),
        ).entries.len(),
    decreases more - fewer,
{
    if fewer < more {
        gathered_symbols_grow(segments, fewer, more - 1);
        assert(segments.take(more).drop_last() =~= segments.take(more - 1));
        symbol_laws::with_symbols_grows(
            gathered_segment_symbols(segments.take(more - 1)),
            low32((more - 1) as nat),
            segments.take(more).last().symbols,
        );
    }
}

/// The symbol table that is gathered from the first `count` segments of a
/// storable executable is storable, and it gives each of these segments its
/// symbols back and no symbols to a later segment.
#[verifier::rlimit(40)]
pub proof fn gathered_symbols_scatter(executable: ExecutableView, count: int, idx: int)
    requires
        executable.storable(),
        0 <= count <= executable.segments.len(),
        0 <= idx < executable.segments.len(),
    ensures
        gathered_segment_symbols(executable.segments.take(count)).storable(),
        gathered_segment_symbols(executable.segments.take(count)).symbols_of(low32(idx as nat))
            == if idx < count {
            executable.segments[idx].symbols
        } else {
            Seq::<SymbolView>::empty()
        },
    decreases count,
{
    let segments = executable.segments;
    assert(segments.take(segments.len() as int) =~= segments);
    gathered_symbols_grow(segments, count, segments.len() as int);
    assert(low32(idx as nat) == idx);
    if count == 0 {
        symbol_laws::empty_table(low32(idx as nat));
    } else {
        assert(low32((count - 1) as nat) == count - 1);
        gathered_symbols_scatter(executable, count - 1, idx);
        assert(segments.take(count).drop_last() =~= segments.take(count - 1));
        let before = gathered_segment_symbols(segments.take(count - 1));
        let segment = segments[count - 1];
        assert(segments.take(count).last() == segment);
        assert(segment.storable());
        symbol_laws::with_symbols_appends(
            before,
            low32((count - 1) as nat),
            segment.symbols,
            low32(idx as nat),
        );
        symbol_laws::with_symbols_short(before, low32((count - 1) as nat), segment.symbols);
        if idx == count - 1 {
            assert(Seq::<SymbolView>::empty() + segment.symbols =~= segment.symbols);
        }
    }
}

/// The headers of the segments take 25 bytes each.
pub proof fn headers_bytes_len(segments: Seq<SegmentView>)
    ensures
        segment_headers_bytes(segments).len() == 25 * segments.len(),
    decreases segments.len(),
{
    if segments.len() > 0 {
        headers_bytes_len(segments.drop_last());
        segment_header_round_trip(segments.last().header(), Seq::empty());
    }
}

/// The 25 bytes at `25 * k` among the headers of the segments are the
/// header of segment `k`.
pub proof fn headers_bytes_row(segments: Seq<SegmentView>, k: int)
    requires
        0 <= k < segments.len(),
    ensures
        segment_headers_bytes(segments).len() == 25 * segments.len(),
        segment_headers_bytes(segments).subrange(25 * k, 25 * k + 25)
            == segments[k].header().spec_wire(),
    decreases segments.len(),
{
    headers_bytes_len(segments);
    headers_bytes_len(segments.drop_last());
    segment_header_round_trip(segments.last().header(), Seq::empty());
    if k == segments.len() - 1 {
        assert(segment_headers_bytes(segments).subrange(25 * k, 25 * k + 25)
            =~= segments[k].header().spec_wire());
    } else {
        headers_bytes_row(segments.drop_last(), k);
        assert(segment_headers_bytes(segments).subrange(25 * k, 25 * k + 25)
            =~= segment_headers_bytes(segments.drop_last()).subrange(25 * k, 25 * k + 25));
    }
}

/// The payloads of the first segments take as many bytes as their headers
/// say, when each segment holds as many bits as it says and is not special.
pub proof fn payloads_len_of_segments(segments: Seq<SegmentView>, count: int)
    requires
        0 <= count <= segments.len(),
        forall|i: int|
            0 <= i < segments.len() ==> (#[trigger] segments[i]).bits.len()
                == segments[i].disk_bit_count && !segments[i].flags.special,
    ensures
        segment_payloads_bytes(segments.take(count)).len() == segment_payloads_len(
            segments.map_values(|s: SegmentView| s.header()).take(count),
        ),
    decreases count,
{
    let headers = segments.map_values(|s: SegmentView| s.header());
    if count > 0 {
        payloads_len_of_segments(segments, count - 1);
        assert(segments.take(count).drop_last() =~= segments.take(count - 1));
        assert(headers.take(count).drop_last() =~= headers.take(count - 1));
        assert(headers.take(count).last() == segments[count - 1].header());
        assert(segments.take(count).last() == segments[count - 1]);
        assert(segments[count - 1].bits.len() == segments[count - 1].disk_bit_count);
    }
}

/// The payload of segment `k` lies among the payloads behind the payloads
/// of the segments before it.
pub proof fn payloads_bytes_row(segments: Seq<SegmentView>, k: int)
    requires
        0 <= k < segments.len(),
    ensures
        ({
            let at = segment_payloads_bytes(segments.take(k)).len() as int;
            let len = segments[k].payload().len() as int;
            &&& at + len <= segment_payloads_bytes(segments).len()
            &&& segment_payloads_bytes(segments).subrange(at, at + len) == segments[k].payload()
        }),
    decreases segments.len(),
{
    let at = segment_payloads_bytes(segments.take(k)).len() as int;
    let len = segments[k].payload().len() as int;
    if k == segments.len() - 1 {
        assert(segments.take(k) =~= segments.drop_last());
        assert(segment_payloads_bytes(segments).subrange(at, at + len) =~= segments[k].payload());
    } else {
        payloads_bytes_row(segments.drop_last(), k);
        assert(segments.drop_last().take(k) =~= segments.take(k));
        assert(segment_payloads_bytes(segments).subrange(at, at + len)
            =~= segment_payloads_bytes(segments.drop_last()).subrange(at, at + len));
    }
}

/// Where the parts of a written executable lie.
#[verifier::rlimit(40)]
pub proof fn wire_parts(executable: ExecutableView)
    ensures
        ({
            let w = executable.wire();
            let n = executable.segments.len() as int;
            &&& w.len() == executable.symbols_start() + gathered_segment_symbols(
                executable.segments,
            ).payload().len()
            &&& w.subrange(0, 17) == executable.header().spec_wire()
            &&& w.subrange(17, 17 + 25 * n) == segment_headers_bytes(executable.segments)
            &&& w.subrange(17 + 25 * n, 17 + 25 * n + 25) == symbol_segment_header(
                gathered_segment_symbols(executable.segments),
            ).spec_wire()
            &&& w.subrange(executable.payloads_start(), executable.symbols_start())
                == segment_payloads_bytes(executable.segments)
            &&& w.subrange(executable.symbols_start(), w.len() as int)
                == gathered_segment_symbols(executable.segments).payload()
        }),
{
    reveal(ExecutableView::wire);
    let w = executable.wire();
    let n = executable.segments.len() as int;
    let symbols = gathered_segment_symbols(executable.segments);
    executable_header_round_trip(executable.header(), Seq::empty());
    headers_bytes_len(executable.segments);
    segment_header_round_trip(symbol_segment_header(symbols), Seq::empty());
    assert(w.subrange(0, 17) =~= executable.header().spec_wire());
    assert(w.subrange(17, 17 + 25 * n) =~= segment_headers_bytes(executable.segments));
    assert(w.subrange(17 + 25 * n, 17 + 25 * n + 25) =~= symbol_segment_header(
        symbols,
    ).spec_wire());
    assert(w.subrange(executable.payloads_start(), executable.symbols_start())
        =~= segment_payloads_bytes(executable.segments));
    assert(w.subrange(executable.symbols_start(), w.len() as int) =~= symbols.payload());
}

/// Header `k` is read from the start of a written executable as it was
/// written, as soon as the start holds the whole header.
pub proof fn cut_header_at(executable: ExecutableView, cut: int, k: int)
    requires
        0 <= k < executable.segments.len() + 1,
        17 + 25 * k + 25 <= cut <= executable.wire().len(),
    ensures
        segment_header_at(executable.wire().take(cut), k as nat) == Ok::<
            SegmentHeader,
            SerializationError,
        >(written_headers(executable)[k]),
{
    let w = executable.wire();
    let p = w.take(cut);
    let n = executable.segments.len() as int;
    let header = written_headers(executable)[k];
    wire_parts(executable);
    segment_header_round_trip(header, p.subrange(17 + 25 * k + 25, cut));
    if k < n {
        headers_bytes_row(executable.segments, k);
        assert(w.subrange(17 + 25 * k, 17 + 25 * k + 25) =~= w.subrange(
            17,
            17 + 25 * n,
        ).subrange(25 * k, 25 * k + 25));
    }
    assert(p.subrange(17 + 25 * k, cut) =~= w.subrange(17 + 25 * k, 17 + 25 * k + 25)
        + p.subrange(17 + 25 * k + 25, cut));
}

/// The first `count` headers are read from the start of a written
/// executable as they were written, as soon as the start holds them whole.
pub proof fn cut_headers_at(executable: ExecutableView, cut: int, count: int)
    requires
        0 <= count <= executable.segments.len() + 1,
        17 + 25 * count <= cut <= executable.wire().len(),
    ensures
        segment_headers_at(executable.wire().take(cut), count as nat) == Ok::<
            Seq<SegmentHeader>,
            SerializationError,
        >(written_headers(executable).take(count)),
    decreases count,
{
    if count == 0 {
        assert(written_headers(executable).take(0) =~= Seq::empty());
    } else {
        cut_headers_at(executable, cut, count - 1);
        cut_header_at(executable, cut, count - 1);
        assert(written_headers(executable).take(count) =~= written_headers(executable).take(
            count - 1,
        ).push(written_headers(executable)[count - 1]));
    }
}

/// A start of a written executable that ends among the headers is too short
/// to read the headers from.
pub proof fn cut_among_headers(executable: ExecutableView, cut: int)
    requires
        17 <= cut < 17 + 25 * (executable.segments.len() + 1),
        cut <= executable.wire().len(),
    ensures
        segment_headers_at(
            executable.wire().take(cut),
            (executable.segments.len() + 1) as nat,
        ) == Err::<Seq<SegmentHeader>, SerializationError>(SerializationError::DataTooShort),
{
    let p = executable.wire().take(cut);
    let whole = (cut - 17) / 25;
    cut_headers_at(executable, cut, whole);
    assert(segment_header_at(p, whole as nat) is Err);
    segment_headers_at_error_stays(
        p,
        (whole + 1) as nat,
        (executable.segments.len() + 1) as nat,
    );
}

/// The headers of a written, storable executable frame segments first, then
/// the symbol table, which starts where the payloads of the segments end.
pub proof fn written_frames(executable: ExecutableView)
    requires
        executable.storable(),
    ensures
        well_framed_segments(written_headers(executable)),
        written_headers(executable).len() == executable.segments.len() + 1,
        none_special(written_headers(executable).take(executable.segments.len() as int)),
        executable.payloads_start() + segment_payloads_len(
            written_headers(executable).take(executable.segments.len() as int),
        ) == executable.symbols_start(),
{
    let segments = executable.segments;
    let n = segments.len() as int;
    let headers = written_headers(executable);
    assert(none_special(headers.take(n))) by {
        assert forall|i: int| 0 <= i < headers.take(n).len() implies !(#[trigger] headers.take(
            n,
        )[i]).flags.special by {
            assert(headers.take(n)[i] == segments[i].header());
            assert(segments[i].storable());
        }
    }
    assert(headers.take(n) =~= segments.map_values(|s: SegmentView| s.header()).take(n));
    assert forall|i: int| 0 <= i < segments.len() implies (#[trigger] segments[i]).bits.len()
        == segments[i].disk_bit_count && !segments[i].flags.special by {
        assert(segments[i].storable());
    }
    payloads_len_of_segments(segments, n);
    assert(segments.take(n) =~= segments);
}

/// The symbol table of a written, storable executable is storable, its
/// header holds its counts, and it is read back as it was written from any
/// start of the executable that holds it whole.
#[verifier::rlimit(40)]
pub proof fn written_symbol_table(executable: ExecutableView, cut: int)
    requires
        executable.storable(),
        executable.symbols_start() <= cut <= executable.wire().len(),
    ensures
        ({
            let w = executable.wire();
            let symbols = gathered_segment_symbols(executable.segments);
            let header = symbol_segment_header(symbols);
            let parsed = SymbolTableView::parse_segment(
                header,
                w.take(cut).subrange(executable.symbols_start(), cut),
            );
            &&& symbols.storable()
            &&& header.flags.special
            &&& header.spec_segment_size() == symbols.payload().len()
            &&& w.len() == executable.symbols_start() + symbols.payload().len()
            &&& cut < w.len() ==> parsed == Err::<(usize, SymbolTableView), SerializationError>(
                SerializationError::DataTooShort,
            )
            &&& cut == w.len() ==> (parsed matches Ok((_, table)) && table == symbols)
        }),
{
    let w = executable.wire();
    let segments = executable.segments;
    let n = segments.len() as int;
    let symbols = gathered_segment_symbols(segments);
    wire_parts(executable);
    assert(segments.take(n) =~= segments);
    if n > 0 {
        gathered_symbols_scatter(executable, n, 0);
    } else {
        symbol_laws::empty_table(0);
    }
    crate::symbols::entries_bytes_len(symbols.entries);
    if cut == w.len() {
        assert(w.take(cut) =~= w);
        assert(w.subrange(executable.symbols_start(), cut) =~= symbols.payload()
            + Seq::<u8>::empty());
        symbol_laws::table_round_trip(symbols, Seq::empty());
    }
}

/// In a written executable, the payload of segment `idx` starts behind the
/// payloads that the headers before it frame.
pub proof fn written_payload_at(executable: ExecutableView, idx: int)
    requires
        executable.storable(),
        0 <= idx < executable.segments.len(),
    ensures
        ({
            let w = executable.wire();
            let at = executable.payloads_start() + segment_payloads_len(
                written_headers(executable).take(idx),
            );
            let len = packed_len(executable.segments[idx].bits.len()) as int;
            &&& at + len <= w.len()
            &&& w.subrange(at, w.len() as int) == packed(executable.segments[idx].bits)
                + w.subrange(at + len, w.len() as int)
        }),
{
    let w = executable.wire();
    let segments = executable.segments;
    let headers = written_headers(executable);
    wire_parts(executable);
    assert(headers.take(idx) =~= segments.map_values(|s: SegmentView| s.header()).take(idx));
    assert forall|i: int| 0 <= i < segments.len() implies (#[trigger] segments[i]).bits.len()
        == segments[i].disk_bit_count && !segments[i].flags.special by {
        assert(segments[i].storable());
    }
    payloads_len_of_segments(segments, idx);
    payloads_bytes_row(segments, idx);
    let at = executable.payloads_start() + segment_payloads_bytes(segments.take(idx)).len();
    let len = segments[idx].payload().len() as int;
    assert(w.subrange(at, at + len) =~= w.subrange(
        executable.payloads_start(),
        executable.symbols_start(),
    ).subrange(at - executable.payloads_start(), at - executable.payloads_start() + len));
    assert(w.subrange(at, w.len() as int) =~= w.subrange(at, at + len) + w.subrange(
        at + len,
        w.len() as int,
    ));
}

/// Segment `idx` of a written, storable executable is read back as it was
/// written.
#[verifier::rlimit(40)]
pub proof fn written_segment_at(executable: ExecutableView, idx: int)
    requires
        executable.storable(),
        0 <= idx < executable.segments.len(),
    ensures
        SegmentView::parse(
            written_headers(executable)[idx],
            executable.wire().subrange(
                executable.payloads_start() + segment_payloads_len(
                    written_headers(executable).take(idx),
                ),
                executable.wire().len() as int,
            ),
            gathered_segment_symbols(executable.segments).symbols_of(low32(idx as nat)),
        ) matches Ok((_, segment)) && segment == executable.segments[idx],
{
    let w = executable.wire();
    let segments = executable.segments;
    let n = segments.len() as int;
    let segment = segments[idx];
    assert(segment.storable());
    assert(written_headers(executable)[idx] == segment.header());
    written_payload_at(executable, idx);
    let at = executable.payloads_start() + segment_payloads_len(
        written_headers(executable).take(idx),
    );
    let len = packed_len(segment.bits.len()) as int;
    unpack_packed(segment.bits, w.subrange(at + len, w.len() as int));
    assert(segments.take(n) =~= segments);
    gathered_symbols_scatter(executable, n, idx);
}

/// The first `count` segments of a written, storable executable are read
/// back as they were written.
pub proof fn written_segments_at(executable: ExecutableView, count: int)
    requires
        executable.storable(),
        0 <= count <= executable.segments.len(),
    ensures
        segments_at(
            executable.wire(),
            executable.payloads_start() as nat,
            written_headers(executable),
            gathered_segment_symbols(executable.segments),
            count as nat,
        ) == Ok::<Seq<SegmentView>, SerializationError>(executable.segments.take(count)),
    decreases count,
{
    if count == 0 {
        assert(executable.segments.take(0) =~= Seq::empty());
    } else {
        let idx = count - 1;
        written_segments_at(executable, idx);
        written_segment_at(executable, idx);
        assert(executable.segments.take(count) =~= executable.segments.take(idx).push(
            executable.segments[idx],
        ));
    }
}

/// The payloads of a written, storable executable are read back as they
/// were written.
#[verifier::rlimit(40)]
pub proof fn written_payloads(executable: ExecutableView)
    requires
        executable.storable(),
    ensures
        ExecutableView::parse_payloads(
            executable.wire(),
            executable.header(),
            written_headers(executable),
        ) == Ok::<(usize, ExecutableView), SerializationError>(
            (executable.wire().len() as usize, executable),
        ),
{
    reveal(ExecutableView::parse_payloads);
    let w = executable.wire();
    let segments = executable.segments;
    let n = segments.len() as int;
    let headers = written_headers(executable);
    written_frames(executable);
    wire_parts(executable);
    written_symbol_table(executable, w.len() as int);
    assert(w.take(w.len() as int) =~= w);
    written_segments_at(executable, n);
    assert(segments.take(n) =~= segments);
    assert(headers[n] == symbol_segment_header(gathered_segment_symbols(segments)));
}

/// The header of a written executable is read back as it was written, and
/// it announces the segments and the symbol table.
pub proof fn written_header(executable: ExecutableView)
    requires
        executable.segments.len() + 1 < 0x1_0000_0000,
    ensures
        ExecutableHeader::parse(executable.wire()) == Ok::<
            (usize, ExecutableHeader),
            SerializationError,
        >((17, executable.header())),
        executable.header().segment_count == executable.segments.len() + 1,
{
    let w = executable.wire();
    wire_parts(executable);
    assert(w =~= w.subrange(0, 17) + w.subrange(17, w.len() as int));
    executable_header_round_trip(executable.header(), w.subrange(17, w.len() as int));
}

/// The segment headers of a written executable are read back as they were
/// written.
pub proof fn whole_headers_at(executable: ExecutableView)
    ensures
        segment_headers_at(executable.wire(), (executable.segments.len() + 1) as nat) == Ok::<
            Seq<SegmentHeader>,
            SerializationError,
        >(written_headers(executable)),
{
    let w = executable.wire();
    let n = executable.segments.len() as int;
    wire_parts(executable);
    cut_headers_at(executable, w.len() as int, n + 1);
    assert(w.take(w.len() as int) =~= w);
    assert(written_headers(executable).take(n + 1) =~= written_headers(executable));
}

/// The header and the segment headers of a written executable are read
/// back as they were written.
pub proof fn written_header_and_frames(executable: ExecutableView)
    requires
        executable.segments.len() + 1 < 0x1_0000_0000,
    ensures
        ExecutableView::parse(executable.wire()) == ExecutableView::parse_payloads(
            executable.wire(),
            executable.header(),
            written_headers(executable),
        ),
{
    written_header(executable);
    whole_headers_at(executable);
}

/// Reading a written executable gives the executable back and takes every
/// byte, whenever the executable is storable.
pub proof fn executable_round_trip(executable: ExecutableView)
    requires
        executable.storable(),
    ensures
        ExecutableView::parse(executable.wire()) == Ok::<
            (usize, ExecutableView),
            SerializationError,
        >((executable.wire().len() as usize, executable)),
{
    written_header_and_frames(executable);
    written_payloads(executable);
}

/// A start of a written, storable executable that holds the headers but not
/// every payload is too short to read the payloads from.
#[verifier::rlimit(40)]
pub proof fn cut_among_payloads(executable: ExecutableView, cut: int)
    requires
        executable.storable(),
        17 + 25 * (executable.segments.len() + 1) <= cut < executable.wire().len(),
    ensures
        ExecutableView::parse_payloads(
            executable.wire().take(cut),
            executable.header(),
            written_headers(executable),
        ) == Err::<(usize, ExecutableView), SerializationError>(SerializationError::DataTooShort),
{
    reveal(ExecutableView::parse_payloads);
    let n = executable.segments.len() as int;
    let headers = written_headers(executable);
    written_frames(executable);
    assert(headers[n] == symbol_segment_header(gathered_segment_symbols(executable.segments)));
    if cut >= executable.symbols_start() {
        written_symbol_table(executable, cut);
    }
}

/// Reading any proper start of a written executable fails because the data
/// is too short, whenever the executable is storable.
#[verifier::rlimit(40)]
pub proof fn executable_cut_short(executable: ExecutableView, cut: int)
    requires
        executable.storable(),
        0 <= cut < executable.wire().len(),
    ensures
        ExecutableView::parse(executable.wire().take(cut)) == Err::<
            (usize, ExecutableView),
            SerializationError,
        >(SerializationError::DataTooShort),
{
    let w = executable.wire();
    let p = w.take(cut);
    let n = executable.segments.len() as int;
    if cut >= 17 {
        wire_parts(executable);
        assert(p =~= w.subrange(0, 17) + p.subrange(17, cut));
        executable_header_round_trip(executable.header(), p.subrange(17, cut));
        assert(frame_count(executable.segments.len(), 1) == n + 1);
        if cut < 17 + 25 * (n + 1) {
            cut_among_headers(executable, cut);
        } else {
            cut_headers_at(executable, cut, n + 1);
            assert(written_headers(executable).take(n + 1) =~= written_headers(executable));
            cut_among_payloads(executable, cut);
        }
    }
}

/// Reading a written executable that has lost its last byte fails because
/// the data is too short, whenever the executable is storable.
pub proof fn executable_truncated(executable: ExecutableView)
    requires
        executable.storable(),
    ensures
        executable.wire().len() > 0,
        ExecutableView::parse(executable.wire().drop_last()) == Err::<
            (usize, ExecutableView),
            SerializationError,
        >(SerializationError::DataTooShort),
{
    wire_parts(executable);
    executable_cut_short(executable, executable.wire().len() - 1);
    assert(executable.wire().drop_last() =~= executable.wire().take(
        executable.wire().len() - 1,
    ));
}

} // verus!
