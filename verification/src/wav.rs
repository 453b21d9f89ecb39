//! How long a WAV file plays, read from the headers of its chunks.
use vstd::prelude::*;

verus! {

/// The length of a file's identification.
pub const FILE_HEADER: usize = 12;

/// The length of a chunk's header.
pub const CHUNK_HEADER: usize = 8;

/// The part of a format chunk that is read.
pub const FORMAT_PART: usize = 12;

/// How much sound a file holds. It plays for the quotient of the two, in
/// seconds.
#[derive(Clone, Copy, Debug, PartialEq, Eq, Structural)]
pub struct WavSpan {
    /// The bytes of sound.
    pub data_bytes: u32,
    /// The bytes that are played in a second.
    pub byte_rate: u32,
}

/// What has been read of a file's chunks.
#[derive(Clone, Copy, Debug, PartialEq, Eq, Structural)]
pub struct WavScan {
    /// The bytes that are played in a second, once a format chunk was met.
    pub byte_rate: Option<u32>,
    /// The bytes of sound, once a data chunk was met.
    pub data_bytes: Option<u32>,
}

/// What comes after the header of a chunk.
#[derive(Clone, Copy, Debug, PartialEq, Eq, Structural)]
pub enum ChunkStep {
    /// Read the first part of the chunk as a format, then skip so many bytes.
    Format(u64),
    /// Skip so many bytes.
    Skip(u64),
    /// Read no further.
    Stop,
}

/// The unsigned number that four bytes hold, the least significant first.
pub open spec fn little_endian(bytes: Seq<u8>, at: int) -> u32 {
    (bytes[at] + 0x100 * bytes[at + 1] + 0x1_0000 * bytes[at + 2] + 0x100_0000 * bytes[at
        + 3]) as u32
}

/// Whether the four letters stand at a place.
pub open spec fn tagged(bytes: Seq<u8>, at: int, tag: Seq<char>) -> bool {
    &&& bytes[at] as int == tag[0] as int
    &&& bytes[at + 1] as int == tag[1] as int
    &&& bytes[at + 2] as int == tag[2] as int
    &&& bytes[at + 3] as int == tag[3] as int
}

/// Whether a file is a WAV file by its first bytes.
pub open spec fn wave_file(bytes: Seq<u8>) -> bool {
    bytes.len() >= FILE_HEADER && tagged(bytes, 0, "RIFF"@) && tagged(bytes, 8, "WAVE"@)
}

/// What comes after the chunk header at a place.
pub open spec fn chunk_step(bytes: Seq<u8>, at: int, scan: WavScan) -> ChunkStep {
    let size = little_endian(bytes, at + 4);
    if tagged(bytes, at, "fmt "@) && size >= FORMAT_PART {
        ChunkStep::Format((size - FORMAT_PART + size % 2) as u64)
    } else if tagged(bytes, at, "data"@) && scan.byte_rate is Some {
        ChunkStep::Stop
    } else {
        ChunkStep::Skip((size + size % 2) as u64)
    }
}

/// What is known once the chunk header at a place was read.
pub open spec fn after_header(bytes: Seq<u8>, at: int, scan: WavScan) -> WavScan {
    if tagged(bytes, at, "data"@) {
        WavScan { data_bytes: Some(little_endian(bytes, at + 4)), ..scan }
    } else {
        scan
    }
}

/// What is known of a file once its chunks were read from a place on. There is
/// nothing where the file ends within a format.
pub open spec fn scanned(bytes: Seq<u8>, at: int, scan: WavScan) -> Option<WavScan>
    decreases
            if at > bytes.len() {
                0
            } else {
                bytes.len() - at + 1
            },
{
    if at + CHUNK_HEADER > bytes.len() {
        Some(scan)
    } else {
        let met = after_header(bytes, at, scan);
        match chunk_step(bytes, at, scan) {
            ChunkStep::Format(skipped) => if at + CHUNK_HEADER + FORMAT_PART > bytes.len() {
                None
            } else {
                scanned(
                    bytes,
                    at + CHUNK_HEADER + FORMAT_PART + skipped,
                    WavScan {
                        byte_rate: Some(little_endian(bytes, at + CHUNK_HEADER + 8)),
                        ..met
                    },
                )
            },
            ChunkStep::Skip(skipped) => scanned(bytes, at + CHUNK_HEADER + skipped, met),
            ChunkStep::Stop => Some(met),
        }
    }
}

/// The span that was met, where there is any sound and a rate to play it at.
pub open spec fn span_met(scan: WavScan) -> Option<WavSpan> {
    match (scan.byte_rate, scan.data_bytes) {
        (Some(byte_rate), Some(data_bytes)) => if byte_rate > 0 && data_bytes > 0 {
            Some(WavSpan { data_bytes, byte_rate })
        } else {
            None
        },
        _ => None,
    }
}

/// The span of a file.
pub open spec fn wav_span(bytes: Seq<u8>) -> Option<WavSpan> {
    if !wave_file(bytes) {
        None
    } else {
        match scanned(bytes, FILE_HEADER as int, WavScan { byte_rate: None, data_bytes: None }) {
            Some(scan) => span_met(scan),
            None => None,
        }
    }
}

/// Whether the four letters, given as bytes, stand at a place.
fn is_tagged(bytes: &[u8], at: usize, tag: [u8; 4]) -> (r: bool)
    requires
        at + 4 <= bytes@.len(),
    ensures
        r == (bytes@[at as int] == tag@[0] && bytes@[at + 1] == tag@[1] && bytes@[at + 2] == tag@[2]
            && bytes@[at + 3] == tag@[3]),
{
    bytes[at] == tag[0] && bytes[at + 1] == tag[1] && bytes[at + 2] == tag[2] && bytes[at + 3]
        == tag[3]
}

/// The unsigned number that four bytes hold, the least significant first.
fn read_little_endian(bytes: &[u8], at: usize) -> (r: u32)
    requires
        at + 4 <= bytes@.len(),
    ensures
        r == little_endian(bytes@, at as int),
{
    bytes[at] as u32 + 0x100 * (bytes[at + 1] as u32) + 0x1_0000 * (bytes[at + 2] as u32)
        + 0x100_0000 * (bytes[at + 3] as u32)
}

impl WavScan {
    /// Starts to read the chunks of a file, given its first bytes. There is
    /// nothing to read where the file is no WAV file.
    pub fn begin(header: &[u8]) -> (r: Option<WavScan>)
        requires
            header@.len() == FILE_HEADER,
        ensures
            r == (if wave_file(header@) {
                Some(WavScan { byte_rate: None, data_bytes: None })
            } else {
                None
            }),
    {
        let riff: [u8; 4] = ['R' as u8, 'I' as u8, 'F' as u8, 'F' as u8];
        let wave: [u8; 4] = ['W' as u8, 'A' as u8, 'V' as u8, 'E' as u8];
        proof {
            reveal_strlit("RIFF");
            reveal_strlit("WAVE");
        }
        if is_tagged(header, 0, riff) && is_tagged(header, 8, wave) {
            Some(WavScan { byte_rate: None, data_bytes: None })
        } else {
            None
        }
    }

    /// Takes the header of a chunk and says what comes next.
    pub fn chunk(&mut self, header: &[u8]) -> (r: ChunkStep)
        requires
            header@.len() == CHUNK_HEADER,
        ensures
            r == chunk_step(header@, 0, *old(self)),
            *final(self) == after_header(header@, 0, *old(self)),
    {
        let format: [u8; 4] = ['f' as u8, 'm' as u8, 't' as u8, ' ' as u8];
        let data: [u8; 4] = ['d' as u8, 'a' as u8, 't' as u8, 'a' as u8];
        proof {
            reveal_strlit("fmt ");
            reveal_strlit("data");
        }
        let size: u32 = read_little_endian(header, 4);
        let padded: u64 = size as u64 + (size % 2) as u64;
        if is_tagged(header, 0, format) && size >= FORMAT_PART as u32 {
            return ChunkStep::Format(padded - FORMAT_PART as u64);
        }
        if is_tagged(header, 0, data) {
            self.data_bytes = Some(size);
            if self.byte_rate.is_some() {
                return ChunkStep::Stop;
            }
        }
        ChunkStep::Skip(padded)
    }

    /// Takes the first part of a format chunk.
    pub fn format(&mut self, part: &[u8])
        requires
            part@.len() == FORMAT_PART,
        ensures
            *final(self) == (WavScan {
                byte_rate: Some(little_endian(part@, 8)),
                ..*old(self)
            }),
    {
        self.byte_rate = Some(read_little_endian(part, 8));
    }

    /// The span of the file, once no more is to be read.
    pub fn span(&self) -> (r: Option<WavSpan>)
        ensures
            r == span_met(*self),
    {
        match (self.byte_rate, self.data_bytes) {
            (Some(byte_rate), Some(data_bytes)) => {
                if byte_rate > 0 && data_bytes > 0 {
                    Some(WavSpan { data_bytes, byte_rate })
                } else {
                    None
                }
            },
            _ => None,
        }
    }
}

/// The bytes from one place up to another.
fn part_of(bytes: &[u8], start: usize, end: usize) -> (r: Vec<u8>)
    requires
        start <= end <= bytes@.len(),
    ensures
        r@ == bytes@.subrange(start as int, end as int),
{
    let mut r: Vec<u8> = Vec::new();
    for i in start..end
        invariant
            end <= bytes@.len(),
            r@ == bytes@.subrange(start as int, i as int),
    {
        r.push(bytes[i]);
        proof {
            assert(r@ =~= bytes@.subrange(start as int, i + 1));
        }
    }
    r
}

/// The span of a WAV file, given its bytes.
pub fn wav_duration(bytes: &[u8]) -> (r: Option<WavSpan>)
    ensures
        r == wav_span(bytes@),
{
    if bytes.len() < FILE_HEADER {
        return None;
    }
    let header = part_of(bytes, 0, FILE_HEADER);
    let mut scan = match WavScan::begin(header.as_slice()) {
        Some(scan) => scan,
        None => {
            return None;
        },
    };
    let ghost wanted = scanned(
        bytes@,
        FILE_HEADER as int,
        WavScan { byte_rate: None, data_bytes: None },
    );
    let mut at: usize = FILE_HEADER;
    while at <= bytes.len() && bytes.len() - at >= CHUNK_HEADER
        invariant
            wave_file(bytes@),
            wanted == scanned(
                bytes@,
                FILE_HEADER as int,
                WavScan { byte_rate: None, data_bytes: None },
            ),
            scanned(bytes@, at as int, scan) == wanted,
        decreases
                if at > bytes@.len() {
                    0
                } else {
                    bytes@.len() - at + 1
                },
    {
        let header = part_of(bytes, at, at + CHUNK_HEADER);
        let ghost before = scan;
        let step = scan.chunk(header.as_slice());
        proof {
            assert(header@ =~= bytes@.subrange(at as int, at + CHUNK_HEADER));
            assert(step == chunk_step(bytes@, at as int, before));
            assert(scan == after_header(bytes@, at as int, before));
        }
        let mut body: usize = at + CHUNK_HEADER;
        let skipped: u64 = match step {
            ChunkStep::Format(skipped) => {
                if bytes.len() - body < FORMAT_PART {
                    return None;
                }
                let part = part_of(bytes, body, body + FORMAT_PART);
                scan.format(part.as_slice());
                body = body + FORMAT_PART;
                skipped
            },
            ChunkStep::Skip(skipped) => skipped,
            ChunkStep::Stop => {
                return scan.span();
            },
        };
        proof {
            assert(scanned(bytes@, body + skipped, scan) == wanted);
        }
        if skipped > (bytes.len() - body) as u64 {
            return scan.span();
        }
        at = body + skipped as usize;
    }
    scan.span()
}

// ---------------------------------------------------------------------------
// Laws
// ---------------------------------------------------------------------------

/// A file that holds a format chunk and right behind it a data chunk has the
/// span that the two state.
pub proof fn law_plain_file_is_read(bytes: Seq<u8>)
    requires
        wave_file(bytes),
        bytes.len() >= 20,
        tagged(bytes, 12, "fmt "@),
        little_endian(bytes, 16) >= FORMAT_PART,
        ({
            let size = little_endian(bytes, 16);
            let data = 20 + size + size % 2;
            data + CHUNK_HEADER <= bytes.len() && tagged(bytes, data, "data"@)
        }),
    ensures
        ({
            let size = little_endian(bytes, 16);
            let data_bytes = little_endian(bytes, 24 + size + size % 2);
            let byte_rate = little_endian(bytes, 28);
            wav_span(bytes) == if data_bytes > 0 && byte_rate > 0 {
                Some(WavSpan { data_bytes, byte_rate })
            } else {
                None
            }
        }),
{
    reveal_strlit("fmt ");
    reveal_strlit("data");
    reveal_with_fuel(scanned, 3);
}

/// A chunk that is neither a format nor data changes nothing: what is read is
/// what stands behind it.
pub proof fn law_other_chunks_are_skipped(bytes: Seq<u8>, at: int, scan: WavScan)
    requires
        0 <= at,
        at + CHUNK_HEADER <= bytes.len(),
        !tagged(bytes, at, "fmt "@),
        !tagged(bytes, at, "data"@),
    ensures
        ({
            let size = little_endian(bytes, at + 4);
            scanned(bytes, at, scan) == scanned(
                bytes,
                at + CHUNK_HEADER + size + size % 2,
                scan,
            )
        }),
{
    let size = little_endian(bytes, at + 4);
    assert((size + size % 2) as u64 == size + size % 2);
}

/// What follows a data chunk is not read once the rate is known, and the sound
/// itself never is: two files that agree up to the header of such a chunk have
/// the same span from there on.
pub proof fn law_sound_is_not_read(a: Seq<u8>, b: Seq<u8>, at: int, scan: WavScan)
    requires
        0 <= at,
        at + CHUNK_HEADER <= a.len(),
        at + CHUNK_HEADER <= b.len(),
        forall|i: int| at <= i < at + CHUNK_HEADER ==> a[i] == b[i],
        tagged(a, at, "data"@),
        scan.byte_rate is Some,
    ensures
        scanned(a, at, scan) == scanned(b, at, scan),
{
    reveal_strlit("fmt ");
    reveal_strlit("data");
}

/// A span is never empty: it has sound, and a rate to play it at.
pub proof fn law_span_is_positive(bytes: Seq<u8>)
    ensures
        wav_span(bytes) matches Some(span) ==> span.data_bytes > 0 && span.byte_rate > 0,
{
}

/// The number that four bytes make, each worth 256 times the one before it.
pub open spec fn number_of(bytes: Seq<u8>, at: int) -> int {
    bytes[at] + 256 * (bytes[at + 1] + 256 * (bytes[at + 2] + 256 * bytes[at + 3]))
}

/// Whether a word of four letters stands at a place.
pub open spec fn word_at(bytes: Seq<u8>, at: int, word: Seq<char>) -> bool {
    forall|i: int| 0 <= i < 4 ==> #[trigger] bytes[at + i] as int == word[i] as int
}

/// Whether the header of a chunk stands at a place: its name, and its size.
pub open spec fn chunk_at(bytes: Seq<u8>, at: int, name: Seq<char>, size: int) -> bool {
    0 <= at && at + 8 <= bytes.len() && word_at(bytes, at, name) && number_of(bytes, at + 4) == size
}

/// The place behind a chunk of a size: chunks start at even places.
pub open spec fn behind_chunk(at: int, size: int) -> int {
    if size % 2 == 0 {
        at + 8 + size
    } else {
        at + 8 + size + 1
    }
}

/// A word stands at a place exactly where its letters do.
proof fn lemma_word_at(bytes: Seq<u8>, at: int, word: Seq<char>)
    ensures
        word_at(bytes, at, word) == tagged(bytes, at, word),
        number_of(bytes, at) == little_endian(bytes, at),
{
    if word_at(bytes, at, word) {
        assert(bytes[at + 0] as int == word[0] as int);
        assert(bytes[at + 1] as int == word[1] as int);
        assert(bytes[at + 2] as int == word[2] as int);
        assert(bytes[at + 3] as int == word[3] as int);
    }
}

/// The names of the chunks that are read differ.
proof fn lemma_chunk_names(bytes: Seq<u8>, at: int)
    ensures
        !(tagged(bytes, at, "fmt "@) && tagged(bytes, at, "data"@)),
{
    reveal_strlit("fmt ");
    reveal_strlit("data");
    assert("fmt "@[0] == 'f' && "data"@[0] == 'd');
}

/// Only what starts with `RIFF`, and has `WAVE` behind four more bytes, is read at all.
pub proof fn law_other_files_have_no_span(bytes: &[u8], r: Option<WavSpan>)
    requires
        call_ensures(wav_duration, (bytes,), r),
        bytes@.len() < 12 || !word_at(bytes@, 0, "RIFF"@) || !word_at(bytes@, 8, "WAVE"@),
    ensures
        r is None,
{
    lemma_word_at(bytes@, 0, "RIFF"@);
    lemma_word_at(bytes@, 8, "WAVE"@);
}

/// The span that a file is read to have, where its sizes and its rate are above zero.
pub open spec fn plays(r: Option<WavSpan>, data_bytes: int, byte_rate: int) -> bool {
    if data_bytes > 0 && byte_rate > 0 {
        r is Some && r->0.data_bytes == data_bytes && r->0.byte_rate == byte_rate
    } else {
        r is None
    }
}

/// A file with a format and then sound plays the sound at the rate that stands in the
/// format. Another chunk before them makes no difference.
#[verifier::rlimit(40)]
pub proof fn law_sound_is_played_at_the_rate(
    bytes: &[u8],
    first: int,
    other: Seq<char>,
    other_size: int,
    format_size: int,
    data_bytes: int,
    r: Option<WavSpan>,
)
    requires
        call_ensures(wav_duration, (bytes,), r),
        bytes@.len() >= 12,
        word_at(bytes@, 0, "RIFF"@),
        word_at(bytes@, 8, "WAVE"@),
        first == 12 || {
            &&& chunk_at(bytes@, 12, other, other_size)
            &&& !word_at(bytes@, 12, "fmt "@)
            &&& !word_at(bytes@, 12, "data"@)
            &&& first == behind_chunk(12, other_size)
        },
        chunk_at(bytes@, first, "fmt "@, format_size),
        format_size >= 12,
        chunk_at(bytes@, behind_chunk(first, format_size), "data"@, data_bytes),
    ensures
        plays(r, data_bytes, number_of(bytes@, first + 16)),
{
    let all = bytes@;
    let fresh = WavScan { byte_rate: None, data_bytes: None };
    let data = behind_chunk(first, format_size);
    lemma_word_at(all, 0, "RIFF"@);
    lemma_word_at(all, 8, "WAVE"@);
    lemma_word_at(all, first, "fmt "@);
    lemma_word_at(all, first + 4, "fmt "@);
    lemma_word_at(all, first + 16, "fmt "@);
    lemma_word_at(all, data, "data"@);
    lemma_word_at(all, data + 4, "data"@);
    lemma_chunk_names(all, first);
    lemma_chunk_names(all, data);
    let rate = little_endian(all, first + 16);
    let known = WavScan { byte_rate: Some(rate), data_bytes: None };
    if first != 12 {
        lemma_word_at(all, 12, "fmt "@);
        lemma_word_at(all, 12, "data"@);
        lemma_word_at(all, 16, "data"@);
        law_other_chunks_are_skipped(all, 12, fresh);
    }
    assert(scanned(all, 12, fresh) == scanned(all, first, fresh));
    assert(little_endian(all, first + 4) == format_size);
    assert(chunk_step(all, first, fresh) is Format);
    assert(scanned(all, first, fresh) == scanned(all, data, known));
    assert(chunk_step(all, data, known) is Stop);
    assert(scanned(all, data, known) == Some(
        WavScan { byte_rate: Some(rate), data_bytes: Some(little_endian(all, data + 4)) },
    ));
}

/// Sound that stands before the format is played at the rate of the format too.
#[verifier::rlimit(40)]
pub proof fn law_sound_may_come_first(
    bytes: &[u8],
    data_bytes: int,
    format_size: int,
    r: Option<WavSpan>,
)
    requires
        call_ensures(wav_duration, (bytes,), r),
        bytes@.len() >= 12,
        word_at(bytes@, 0, "RIFF"@),
        word_at(bytes@, 8, "WAVE"@),
        chunk_at(bytes@, 12, "data"@, data_bytes),
        chunk_at(bytes@, behind_chunk(12, data_bytes), "fmt "@, format_size),
        format_size >= 12,
        behind_chunk(12, data_bytes) + 20 <= bytes@.len(),
        bytes@.len() < behind_chunk(behind_chunk(12, data_bytes), format_size) + 8,
    ensures
        plays(r, data_bytes, number_of(bytes@, behind_chunk(12, data_bytes) + 16)),
{
    let all = bytes@;
    let fresh = WavScan { byte_rate: None, data_bytes: None };
    let format = behind_chunk(12, data_bytes);
    lemma_word_at(all, 0, "RIFF"@);
    lemma_word_at(all, 8, "WAVE"@);
    lemma_word_at(all, 12, "data"@);
    lemma_word_at(all, 16, "data"@);
    lemma_word_at(all, format, "fmt "@);
    lemma_word_at(all, format + 4, "fmt "@);
    lemma_word_at(all, format + 16, "fmt "@);
    lemma_chunk_names(all, 12);
    lemma_chunk_names(all, format);
    let size = little_endian(all, 16);
    let rate = little_endian(all, format + 16);
    let met = WavScan { byte_rate: None, data_bytes: Some(size) };
    assert(chunk_step(all, 12, fresh) is Skip);
    assert(scanned(all, 12, fresh) == scanned(all, format, met));
    assert(chunk_step(all, format, met) is Format);
    assert(scanned(all, format, met) == scanned(
        all,
        behind_chunk(format, format_size),
        WavScan { byte_rate: Some(rate), data_bytes: Some(size) },
    ));
}

/// A file that ends within its format has no span.
pub proof fn law_cut_format_has_no_span(bytes: &[u8], format_size: int, r: Option<WavSpan>)
    requires
        call_ensures(wav_duration, (bytes,), r),
        20 <= bytes@.len() < 32,
        word_at(bytes@, 0, "RIFF"@),
        word_at(bytes@, 8, "WAVE"@),
        chunk_at(bytes@, 12, "fmt "@, format_size),
        format_size >= 12,
    ensures
        r is None,
{
    let all = bytes@;
    lemma_word_at(all, 12, "fmt "@);
    lemma_word_at(all, 16, "fmt "@);
    lemma_chunk_names(all, 12);
}

/// Reading starts only at the beginning of a WAVE file, with nothing known.
pub proof fn law_reading_starts_with_nothing(header: &[u8], r: Option<WavScan>)
    requires
        header@.len() == 12,
        call_ensures(WavScan::begin, (header,), r),
    ensures
        r is Some <==> word_at(header@, 0, "RIFF"@) && word_at(header@, 8, "WAVE"@),
        r matches Some(scan) ==> scan.byte_rate is None && scan.data_bytes is None,
{
    lemma_word_at(header@, 0, "RIFF"@);
    lemma_word_at(header@, 8, "WAVE"@);
}

/// Of a format the first twelve bytes are read and the others skipped. Of sound the size
/// is taken; where the rate is known, nothing more is read. All else is skipped, with
/// the byte that makes a size even.
pub proof fn law_chunks_are_read_or_skipped(
    scan: &mut WavScan,
    header: &[u8],
    size: int,
    r: ChunkStep,
)
    requires
        header@.len() == 8,
        size == number_of(header@, 4),
        call_ensures(WavScan::chunk, (scan, header), r),
    ensures
        word_at(header@, 0, "fmt "@) && size >= 12 ==> *final(scan) == *old(scan) && r
            == ChunkStep::Format((behind_chunk(0, size) - 20) as u64),
        word_at(header@, 0, "data"@) ==> {
            &&& final(scan).data_bytes == Some(size as u32)
            &&& final(scan).byte_rate == old(scan).byte_rate
            &&& old(scan).byte_rate is Some ==> r is Stop
            &&& old(scan).byte_rate is None ==> r == ChunkStep::Skip(
                (behind_chunk(0, size) - 8) as u64,
            )
        },
        !word_at(header@, 0, "data"@) && !(word_at(header@, 0, "fmt "@) && size >= 12)
            ==> *final(scan) == *old(scan) && r == ChunkStep::Skip(
            (behind_chunk(0, size) - 8) as u64,
        ),
{
    lemma_word_at(header@, 0, "fmt "@);
    lemma_word_at(header@, 0, "data"@);
    lemma_word_at(header@, 4, "data"@);
    lemma_chunk_names(header@, 0);
}

/// The rate is the number behind the first eight bytes of a format; what is known of
/// the sound stays.
pub proof fn law_rate_stands_in_the_format(scan: &mut WavScan, part: &[u8], r: ())
    requires
        part@.len() == 12,
        call_ensures(WavScan::format, (scan, part), r),
    ensures
        final(scan).byte_rate == Some(number_of(part@, 8) as u32),
        final(scan).data_bytes == old(scan).data_bytes,
{
    lemma_word_at(part@, 8, "fmt "@);
}

/// What was read gives a span where the sound and the rate are known and above zero.
pub proof fn law_span_is_what_was_read(scan: &WavScan, r: Option<WavSpan>)
    requires
        call_ensures(WavScan::span, (scan,), r),
    ensures
        scan.byte_rate is Some && scan.data_bytes is Some ==> plays(
            r,
            scan.data_bytes->0 as int,
            scan.byte_rate->0 as int,
        ),
        scan.byte_rate is None || scan.data_bytes is None ==> r is None,
{
}

} // verus!
