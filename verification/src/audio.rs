//! Container sniffing and WAV framing for the audio that `ffmpeg` produces.

use vstd::prelude::*;

verus! {

/// `bytes` holds `tag` at offset `at`.
pub open spec fn tag_at(bytes: Seq<u8>, at: int, tag: Seq<u8>) -> bool {
    &&& 0 <= at
    &&& at + tag.len() <= bytes.len()
    &&& bytes.subrange(at, at + tag.len()) == tag
}

/// "RIFF"
pub open spec fn riff_tag() -> Seq<u8> { seq![0x52u8, 0x49, 0x46, 0x46] }
/// "WAVE"
pub open spec fn wave_tag() -> Seq<u8> { seq![0x57u8, 0x41, 0x56, 0x45] }
/// "ID3"
pub open spec fn id3_tag() -> Seq<u8> { seq![0x49u8, 0x44, 0x33] }
/// "ftyp"
pub open spec fn ftyp_tag() -> Seq<u8> { seq![0x66u8, 0x74, 0x79, 0x70] }
/// The EBML magic of Matroska/WebM.
pub open spec fn ebml_tag() -> Seq<u8> { seq![0x1Au8, 0x45, 0xDF, 0xA3] }
/// "fLaC"
pub open spec fn flac_tag() -> Seq<u8> { seq![0x66u8, 0x4C, 0x61, 0x43] }
/// "OggS"
pub open spec fn ogg_tag() -> Seq<u8> { seq![0x4Fu8, 0x67, 0x67, 0x53] }

/// The container a header names, checked in a fixed order: WAV, MP3 (an ID3
/// tag or an MPEG frame sync), MP4/M4A, Matroska/WebM, FLAC, Ogg. Headers
/// shorter than twelve bytes name nothing.
pub open spec fn spec_detect_format(b: Seq<u8>) -> Option<&'static str> {
    if b.len() < 12 {
        None
    } else if tag_at(b, 0, riff_tag()) && tag_at(b, 8, wave_tag()) {
        Some("wav")
    } else if tag_at(b, 0, id3_tag()) || (b[0] == 0xFF && b[1] & 0xE0 == 0xE0) {
        Some("mp3")
    } else if tag_at(b, 4, ftyp_tag()) {
        Some("m4a/mp4")
    } else if tag_at(b, 0, ebml_tag()) {
        Some("mkv/webm")
    } else if tag_at(b, 0, flac_tag()) {
        Some("flac")
    } else if tag_at(b, 0, ogg_tag()) {
        Some("ogg/opus")
    } else {
        None
    }
}

fn bytes_at(bytes: &[u8], at: usize, tag: &[u8]) -> (r: bool)
    requires
        at + tag@.len() <= bytes@.len(),
    ensures
        r == tag_at(bytes@, at as int, tag@),
{
    let n = bytes.len();
    let mut i: usize = 0;
    while i < tag.len()
        invariant
            n == bytes@.len(),
            i <= tag@.len(),
            at + tag@.len() <= bytes@.len(),
            forall|j: int| 0 <= j < i ==> bytes@[at + j] == tag@[j],
        decreases tag@.len() - i,
    {
        if bytes[at + i] != tag[i] {
            assert(bytes@.subrange(at as int, at + tag@.len())[i as int] != tag@[i as int]);
            return false;
        }
        i = i + 1;
    }
    assert(bytes@.subrange(at as int, at + tag@.len()) =~= tag@);
    true
}

/// Magic-byte format detection, for diagnostics only: an unrecognized header
/// never stops a run, `ffmpeg` has the final word on what it can decode.
pub fn detect_format(bytes: &[u8]) -> (r: Option<&'static str>)
    ensures
        r == spec_detect_format(bytes@),
{
    if bytes.len() < 12 {
        return None;
    }
    let riff: [u8; 4] = [0x52, 0x49, 0x46, 0x46];
    let wave: [u8; 4] = [0x57, 0x41, 0x56, 0x45];
    let id3: [u8; 3] = [0x49, 0x44, 0x33];
    let ftyp: [u8; 4] = [0x66, 0x74, 0x79, 0x70];
    let ebml: [u8; 4] = [0x1A, 0x45, 0xDF, 0xA3];
    let flac: [u8; 4] = [0x66, 0x4C, 0x61, 0x43];
    let ogg: [u8; 4] = [0x4F, 0x67, 0x67, 0x53];
    assert(riff@ == riff_tag());
    assert(wave@ == wave_tag());
    assert(id3@ == id3_tag());
    assert(ftyp@ == ftyp_tag());
    assert(ebml@ == ebml_tag());
    assert(flac@ == flac_tag());
    assert(ogg@ == ogg_tag());
    if bytes_at(bytes, 0, riff.as_slice()) && bytes_at(bytes, 8, wave.as_slice()) {
        Some("wav")
    } else if bytes_at(bytes, 0, id3.as_slice()) || (bytes[0] == 0xFF && bytes[1] & 0xE0 == 0xE0) {
        Some("mp3")
    } else if bytes_at(bytes, 4, ftyp.as_slice()) {
        Some("m4a/mp4")
    } else if bytes_at(bytes, 0, ebml.as_slice()) {
        Some("mkv/webm")
    } else if bytes_at(bytes, 0, flac.as_slice()) {
        Some("flac")
    } else if bytes_at(bytes, 0, ogg.as_slice()) {
        Some("ogg/opus")
    } else {
        None
    }
}

/// The header opens with a RIFF/WAVE container: "RIFF", a size, "WAVE".
pub open spec fn riff_wave_header(b: Seq<u8>) -> bool {
    &&& b.len() >= 12
    &&& b[0] == 0x52 && b[1] == 0x49 && b[2] == 0x46 && b[3] == 0x46
    &&& b[8] == 0x57 && b[9] == 0x41 && b[10] == 0x56 && b[11] == 0x45
}

/// Which headers are MP3 and which are WAV: a RIFF/WAVE header is WAV; any
/// other header of twelve bytes or more that opens with an ID3 tag, or with
/// an MPEG frame sync (a 0xFF byte, then a byte whose top three bits are
/// set), is MP3; and a header under twelve bytes is never recognized.
pub proof fn law_wav_and_mp3_headers(b: Seq<u8>)
    ensures
        riff_wave_header(b) ==> spec_detect_format(b) == Some("wav"),
        b.len() >= 12 && !riff_wave_header(b) && b[0] == 0xFF && b[1] >= 0xE0 ==> spec_detect_format(b) == Some("mp3"),
        b.len() >= 12 && !riff_wave_header(b) && b[0] == 0x49 && b[1] == 0x44 && b[2] == 0x33
            ==> spec_detect_format(b) == Some("mp3"),
        b.len() < 12 ==> spec_detect_format(b) is None,
{
    if b.len() >= 12 {
        let wav = tag_at(b, 0, riff_tag()) && tag_at(b, 8, wave_tag());
        if riff_wave_header(b) {
            assert(b.subrange(0, 4) =~= riff_tag());
            assert(b.subrange(8, 12) =~= wave_tag());
        } else {
            if wav {
                assert(b.subrange(0, 4)[0] == b[0] && b.subrange(0, 4)[1] == b[1] && b.subrange(0, 4)[2] == b[2] && b.subrange(0, 4)[3] == b[3]);
                assert(b.subrange(8, 12)[0] == b[8] && b.subrange(8, 12)[1] == b[9] && b.subrange(8, 12)[2] == b[10] && b.subrange(8, 12)[3] == b[11]);
            }
            let x = b[1];
            assert(x >= 0xE0 ==> x & 0xE0 == 0xE0) by (bit_vector);
            if b[0] == 0x49 && b[1] == 0x44 && b[2] == 0x33 {
                assert(b.subrange(0, 3) =~= id3_tag());
            }
        }
    }
}

/// "data"
pub open spec fn data_tag() -> Seq<u8> { seq![0x64u8, 0x61, 0x74, 0x61] }

/// Why bytes are not a WAV file this crate can read.
#[derive(Debug, Clone, Copy, PartialEq, Eq, Structural)]
pub enum WavError {
    /// No `RIFF`/`WAVE` header.
    NotWav,
    /// No `data` chunk.
    NoDataChunk,
}

/// The little-endian 32-bit value at `at`.
pub open spec fn le_u32(b: Seq<u8>, at: int) -> int {
    b[at] + b[at + 1] * 256 + b[at + 2] * 65536 + b[at + 3] * 16777216
}

/// The sample bytes of the first `data` chunk at or after `pos`: chunks are an
/// id, a little-endian size and that many bytes, padded to an even length; a
/// `data` chunk running past the end of the file is cut there.
pub open spec fn data_chunk_from(b: Seq<u8>, pos: int) -> Option<(int, int)>
    decreases b.len() - pos,
{
    if pos < 0 || pos + 8 > b.len() {
        None
    } else {
        let size = le_u32(b, pos + 4);
        let start = pos + 8;
        if tag_at(b, pos, data_tag()) {
            Some((start, if start + size < b.len() { start + size } else { b.len() as int }))
        } else {
            let next = start + size + size % 2;
            if next > b.len() { None } else { data_chunk_from(b, next) }
        }
    }
}

/// The signed 16-bit value of the little-endian pair `lo`, `hi`.
pub open spec fn le_i16(lo: u8, hi: u8) -> i16 {
    let u = lo + hi * 256;
    (if u >= 32768 { u - 65536 } else { u }) as i16
}

/// The 16-bit little-endian samples of `b`; a trailing odd byte is dropped.
pub open spec fn pcm16_samples(b: Seq<u8>) -> Seq<i16> {
    Seq::new(b.len() / 2, |k: int| le_i16(b[2 * k], b[2 * k + 1]))
}

/// The samples of a mono 16-bit PCM WAV file, or why there are none.
pub open spec fn spec_wav_samples(b: Seq<u8>) -> Result<Seq<i16>, WavError> {
    if !(b.len() >= 12 && tag_at(b, 0, riff_tag()) && tag_at(b, 8, wave_tag())) {
        Err(WavError::NotWav)
    } else {
        match data_chunk_from(b, 12) {
            None => Err(WavError::NoDataChunk),
            Some((start, end)) => Ok(pcm16_samples(b.subrange(start, end))),
        }
    }
}

fn le_i16_of(lo: u8, hi: u8) -> (r: i16)
    ensures
        r == le_i16(lo, hi),
{
    let u: u32 = (lo as u32) + (hi as u32) * 256;
    if u >= 32768 {
        (u as i32 - 65536) as i16
    } else {
        u as i16
    }
}

/// The 16-bit samples of a mono 16-bit PCM WAV file (the format `ffmpeg` is
/// asked to produce). The `data` chunk is located by walking the chunk list,
/// not assumed at a fixed offset, since the `fmt ` chunk's size can vary.
pub fn wav_pcm16_samples(bytes: &[u8]) -> (r: Result<Vec<i16>, WavError>)
    ensures
        match r {
            Ok(v) => spec_wav_samples(bytes@) == Ok::<Seq<i16>, WavError>(v@),
            Err(e) => spec_wav_samples(bytes@) == Err::<Seq<i16>, WavError>(e),
        },
{
    let n = bytes.len();
    if n < 12 {
        return Err(WavError::NotWav);
    }
    let riff: [u8; 4] = [0x52, 0x49, 0x46, 0x46];
    let wave: [u8; 4] = [0x57, 0x41, 0x56, 0x45];
    let data: [u8; 4] = [0x64, 0x61, 0x74, 0x61];
    assert(riff@ == riff_tag());
    assert(wave@ == wave_tag());
    assert(data@ == data_tag());
    if !(bytes_at(bytes, 0, riff.as_slice()) && bytes_at(bytes, 8, wave.as_slice())) {
        return Err(WavError::NotWav);
    }
    let mut pos: usize = 12;
    while pos <= n && n - pos >= 8
        invariant
            n == bytes@.len(),
            12 <= pos,
            n >= 12,
            tag_at(bytes@, 0, riff_tag()),
            tag_at(bytes@, 8, wave_tag()),
            data@ == data_tag(),
            data_chunk_from(bytes@, 12) == data_chunk_from(bytes@, pos as int),
        decreases n - pos,
    {
        let size: usize = (bytes[pos + 4] as usize) + (bytes[pos + 5] as usize) * 256
            + (bytes[pos + 6] as usize) * 65536;
        let top: u64 = bytes[pos + 7] as u64;
        let size64: u64 = size as u64 + top * 16777216;
        let start = pos + 8;
        assert(size64 == le_u32(bytes@, pos + 4));
        if bytes_at(bytes, pos, data.as_slice()) {
            let end = if size64 < (n - start) as u64 { start + size64 as usize } else { n };
            let mut samples: Vec<i16> = Vec::new();
            let count = (end - start) / 2;
            let mut k: usize = 0;
            while k < count
                invariant
                    n == bytes@.len(),
                    start <= end <= n,
                    count == (end - start) / 2,
                    k <= count,
                    samples@ == pcm16_samples(bytes@.subrange(start as int, end as int)).take(k as int),
                decreases count - k,
            {
                let lo = bytes[start + 2 * k];
                let hi = bytes[start + 2 * k + 1];
                samples.push(le_i16_of(lo, hi));
                assert(samples@ =~= pcm16_samples(bytes@.subrange(start as int, end as int)).take(k + 1));
                k = k + 1;
            }
            assert(samples@ =~= pcm16_samples(bytes@.subrange(start as int, end as int)));
            return Ok(samples);
        }
        let pad: u64 = size64 % 2;
        if size64 + pad > (n - start) as u64 {
            assert(data_chunk_from(bytes@, (start + size64 + pad) as int) is None);
            return Err(WavError::NoDataChunk);
        }
        pos = start + (size64 + pad) as usize;
    }
    Err(WavError::NoDataChunk)
}

/// The fields of an `ffprobe -of json` report that a run reads, as text:
/// `format.duration` where it is a string, and the `codec_type` of each
/// stream (where it is a string) when `streams` is an array.
pub struct FfprobeFields {
    pub duration: Option<String>,
    pub codec_types: Option<Vec<Option<String>>>,
}

/// The view of an optional string.
pub open spec fn opt_str_view(o: Option<String>) -> Option<Seq<char>> {
    match o {
        Some(s) => Some(s@),
        None => None,
    }
}

impl View for FfprobeFields {
    type V = (Option<Seq<char>>, Option<Seq<Option<Seq<char>>>>);

    open spec fn view(&self) -> (Option<Seq<char>>, Option<Seq<Option<Seq<char>>>>) {
        (
            opt_str_view(self.duration),
            match self.codec_types {
                Some(v) => Some(v@.map_values(|o: Option<String>| opt_str_view(o))),
                None => None,
            },
        )
    }
}

/// What `serde_json` reads from an ffprobe report: `None` where the bytes are
/// not JSON, else the duration text and the stream codec types.
pub uninterp spec fn ffprobe_fields(json: Seq<u8>) -> Option<(Option<Seq<char>>, Option<Seq<Option<Seq<char>>>>)>;

/// Calls `serde_json::from_slice` into a `serde_json::Value` and picks the
/// fields a run reads; the contract claims only that the outcome is a
/// function of the bytes.
#[verifier::external_body]
fn parse_ffprobe_fields(json: &[u8]) -> (r: Option<FfprobeFields>)
    ensures
        match r {
            Some(f) => ffprobe_fields(json@) == Some(f@),
            None => ffprobe_fields(json@) is None,
        },
{
    let v: serde_json::Value = serde_json::from_slice(json).ok()?;
    Some(FfprobeFields {
        duration: v["format"]["duration"].as_str().map(String::from),
        codec_types: v["streams"].as_array().map(|a| a.iter().map(|s| s["codec_type"].as_str().map(String::from)).collect()),
    })
}

/// What a probe tells a run about its input.
pub struct ProbeReport {
    /// Some stream of the input is an audio stream.
    pub has_audio_track: bool,
    /// The input's duration in seconds, as ffprobe wrote it.
    pub duration_text: Option<String>,
}

/// Whether some stream's codec type is `audio`.
pub open spec fn spec_has_audio(codec_types: Option<Seq<Option<Seq<char>>>>) -> bool {
    match codec_types {
        Some(ts) => exists|k: int| 0 <= k < ts.len() && ts[k] == Some("audio"@),
        None => false,
    }
}

/// The probe report of the fields of an ffprobe report: an input has an
/// audio track exactly when one of its streams is of type `audio`.
pub fn probe_report(f: &FfprobeFields) -> (r: ProbeReport)
    ensures
        r.has_audio_track == spec_has_audio(f@.1),
        opt_str_view(r.duration_text) == f@.0,
{
    let mut has_audio = false;
    match &f.codec_types {
        Some(ts) => {
            let ghost tv = ts@.map_values(|o: Option<String>| opt_str_view(o));
            let n = ts.len();
            let mut k: usize = 0;
            while k < n
                invariant
                    n == ts@.len(),
                    tv == ts@.map_values(|o: Option<String>| opt_str_view(o)),
                    k <= n,
                    has_audio == exists|j: int| 0 <= j < k && tv[j] == Some("audio"@),
                decreases n - k,
            {
                let is_audio = match &ts[k] {
                    Some(c) => crate::strings::str_eq(c.as_str(), "audio"),
                    None => false,
                };
                assert(tv[k as int] == opt_str_view(ts@[k as int]));
                assert(is_audio == (tv[k as int] == Some("audio"@)));
                if is_audio {
                    has_audio = true;
                }
                k = k + 1;
            }
        },
        None => {},
    }
    let duration_text = match &f.duration {
        Some(d) => Some(d.clone()),
        None => None,
    };
    ProbeReport { has_audio_track: has_audio, duration_text }
}

/// The probe report of an ffprobe JSON report, or `None` where the bytes are not JSON.
pub open spec fn spec_probe_json(json: Seq<u8>) -> Option<(bool, Option<Seq<char>>)> {
    match ffprobe_fields(json) {
        Some(f) => Some((spec_has_audio(f.1), f.0)),
        None => None,
    }
}

/// Reads the report `ffprobe -show_entries format=duration:stream=codec_type
/// -of json` printed: whether the input has an audio track, and its duration
/// text; `None` where the output is not JSON.
pub fn read_probe_report(json: &[u8]) -> (r: Option<ProbeReport>)
    ensures
        match r {
            Some(rep) => spec_probe_json(json@) == Some((rep.has_audio_track, opt_str_view(rep.duration_text))),
            None => spec_probe_json(json@) is None,
        },
{
    match parse_ffprobe_fields(json) {
        Some(f) => Some(probe_report(&f)),
        None => None,
    }
}

} // verus!
