//! Sound files: one channel of 16-bit samples.

use vstd::prelude::*;

verus! {

/// The length of the header.
pub const HEADER_LEN: u32 = 44;

/// A number of 16 bits, lowest byte first.
#[verifier::opaque]
pub open spec fn le16(v: int) -> Seq<u8> {
    seq![(v % 256) as u8, (v / 256 % 256) as u8]
}

/// A number of 32 bits, lowest byte first.
#[verifier::opaque]
pub open spec fn le32(v: int) -> Seq<u8> {
    seq![
        (v % 256) as u8,
        (v / 256 % 256) as u8,
        (v / 65536 % 256) as u8,
        (v / 16777216 % 256) as u8,
    ]
}

/// The 16 bits of a sample, as a number.
pub open spec fn bits_of(sample: i16) -> int {
    if sample >= 0 {
        sample as int
    } else {
        sample + 65536
    }
}

/// The samples from number `i` on, two bytes for each.
pub open spec fn pcm_from(samples: Seq<i16>, i: int) -> Seq<u8>
    decreases samples.len() - i,
{
    if i < 0 || i >= samples.len() {
        Seq::empty()
    } else {
        le16(bits_of(samples[i])) + pcm_from(samples, i + 1)
    }
}

/// The number of bytes of sound, as far as 32 bits can hold it.
pub open spec fn data_len(samples: Seq<i16>) -> int {
    (2 * samples.len()) as int % 0x1_0000_0000
}

/// Whether all numbers of the header are in range.
pub open spec fn in_range(samples: Seq<i16>, sample_rate: u32) -> bool {
    data_len(samples) + HEADER_LEN <= u32::MAX && sample_rate * 2 <= u32::MAX
}

/// The first part of the header, for so many bytes of sound.
#[verifier::opaque]
pub open spec fn riff_chunk(len: int) -> Seq<u8> {
    seq![0x52u8, 0x49, 0x46, 0x46] + le32(len + 36) + seq![0x57u8, 0x41, 0x56, 0x45]
}

/// The part of the header that describes the samples: plain numbers of 16 bits, one channel.
#[verifier::opaque]
pub open spec fn format_chunk(sample_rate: u32) -> Seq<u8> {
    seq![0x66u8, 0x6D, 0x74, 0x20] + le32(16) + le16(1) + le16(1) + le32(sample_rate as int)
        + le32(sample_rate * 2) + le16(2) + le16(16)
}

/// The last part of the header, before so many bytes of sound.
#[verifier::opaque]
pub open spec fn data_chunk(len: int) -> Seq<u8> {
    seq![0x64u8, 0x61, 0x74, 0x61] + le32(len)
}

/// The header of a file with so many bytes of sound.
pub open spec fn header(len: int, sample_rate: u32) -> Seq<u8> {
    riff_chunk(len) + format_chunk(sample_rate) + data_chunk(len)
}

/// The contents of a file.
pub open spec fn file(samples: Seq<i16>, sample_rate: u32) -> Seq<u8> {
    header(data_len(samples), sample_rate) + pcm_from(samples, 0)
}

fn put16(out: &mut Vec<u8>, v: u16)
    ensures
        final(out)@ == old(out)@ + le16(v as int),
{
    proof {
        reveal(le16);
    }
    let ghost before = out@;
    out.push((v % 256) as u8);
    out.push((v / 256) as u8);
    assert(out@ =~= before + le16(v as int));
}

fn put32(out: &mut Vec<u8>, v: u32)
    ensures
        final(out)@ == old(out)@ + le32(v as int),
{
    proof {
        reveal(le32);
    }
    let ghost before = out@;
    out.push((v % 256) as u8);
    out.push((v / 256 % 256) as u8);
    out.push((v / 65536 % 256) as u8);
    out.push((v / 16777216) as u8);
    assert(out@ =~= before + le32(v as int));
}

fn put_name(out: &mut Vec<u8>, a: u8, b: u8, c: u8, d: u8)
    ensures
        final(out)@ == old(out)@ + seq![a, b, c, d],
{
    let ghost before = out@;
    out.push(a);
    out.push(b);
    out.push(c);
    out.push(d);
    assert(out@ =~= before + seq![a, b, c, d]);
}

/// The contents of a file with the given samples, or nothing if the header cannot describe it.
pub fn encode_wav(samples: &Vec<i16>, sample_rate: u32) -> (r: Option<Vec<u8>>)
    ensures
        match r {
            Some(bytes) => in_range(samples@, sample_rate) && bytes@ == file(
                samples@,
                sample_rate,
            ),
            None => !in_range(samples@, sample_rate),
        },
{
    let count: u128 = samples.len() as u128;
    let len: u32 = (2 * count % 0x1_0000_0000) as u32;
    if len > u32::MAX - HEADER_LEN || sample_rate > u32::MAX / 2 {
        return None;
    }
    let mut wav: Vec<u8> = Vec::new();
    put_name(&mut wav, 0x52, 0x49, 0x46, 0x46);
    put32(&mut wav, len + 36);
    put_name(&mut wav, 0x57, 0x41, 0x56, 0x45);
    put_name(&mut wav, 0x66, 0x6D, 0x74, 0x20);
    put32(&mut wav, 16);
    put16(&mut wav, 1);
    put16(&mut wav, 1);
    put32(&mut wav, sample_rate);
    put32(&mut wav, sample_rate * 2);
    put16(&mut wav, 2);
    put16(&mut wav, 16);
    put_name(&mut wav, 0x64, 0x61, 0x74, 0x61);
    put32(&mut wav, len);
    proof {
        reveal(riff_chunk);
        reveal(format_chunk);
        reveal(data_chunk);
    }
    assert(wav@ =~= header(len as int, sample_rate));
    let mut i: usize = 0;
    assert(wav@ + pcm_from(samples@, 0) =~= file(samples@, sample_rate));
    while i < samples.len()
        invariant
            i <= samples@.len(),
            wav@ + pcm_from(samples@, i as int) == file(samples@, sample_rate),
        decreases samples@.len() - i,
    {
        let ghost before = wav@;
        let sample: i16 = samples[i];
        let bits: u16 = if sample >= 0 {
            sample as u16
        } else {
            (sample as i32 + 65536) as u16
        };
        put16(&mut wav, bits);
        proof {
            let rest = pcm_from(samples@, i + 1);
            assert(wav@ + rest =~= before + (le16(bits_of(sample)) + rest));
        }
        i = i + 1;
    }
    assert(wav@ + Seq::<u8>::empty() =~= wav@);
    Some(wav)
}

/// The number that two bytes stand for, lowest byte first.
pub open spec fn read16(bytes: Seq<u8>, at: int) -> int {
    bytes[at] + 256 * bytes[at + 1]
}

/// The number that four bytes stand for, lowest byte first.
pub open spec fn read32(bytes: Seq<u8>, at: int) -> int {
    bytes[at] + 256 * bytes[at + 1] + 65536 * bytes[at + 2] + 16777216 * bytes[at + 3]
}

/// The sample that two bytes stand for.
pub open spec fn read_sample(bytes: Seq<u8>, at: int) -> int {
    let v = read16(bytes, at);
    if v < 32768 {
        v
    } else {
        v - 65536
    }
}

/// A file gives every sample back, in its order.
pub proof fn lemma_samples_read_back(samples: Seq<i16>, sample_rate: u32, i: int)
    requires
        0 <= i < samples.len(),
    ensures
        read_sample(file(samples, sample_rate), HEADER_LEN + 2 * i) == samples[i],
{
    lemma_pcm(samples, 0, i);
    lemma_riff_chunk(data_len(samples));
    lemma_format_chunk(sample_rate);
    lemma_data_chunk(data_len(samples));
    let pcm = pcm_from(samples, 0);
    let head = header(data_len(samples), sample_rate);
    assert(head.len() == HEADER_LEN);
    assert(file(samples, sample_rate)[HEADER_LEN + 2 * i] == pcm[2 * i]);
    assert(file(samples, sample_rate)[HEADER_LEN + 2 * i + 1] == pcm[2 * i + 1]);
}

proof fn lemma_pcm(samples: Seq<i16>, from: int, i: int)
    requires
        0 <= from <= samples.len(),
    ensures
        pcm_from(samples, from).len() == 2 * (samples.len() - from),
        from <= i < samples.len() ==> {
            &&& pcm_from(samples, from)[2 * (i - from)] == bits_of(samples[i]) % 256
            &&& pcm_from(samples, from)[2 * (i - from) + 1] == bits_of(samples[i]) / 256
        },
    decreases samples.len() - from,
{
    reveal(le16);
    if from < samples.len() {
        lemma_pcm(samples, from + 1, i);
        let rest = pcm_from(samples, from + 1);
        if from < i < samples.len() {
            assert(pcm_from(samples, from)[2 * (i - from)] == rest[2 * (i - (from + 1))]);
            assert(pcm_from(samples, from)[2 * (i - from) + 1] == rest[2 * (i - (from + 1)) + 1]);
        }
    }
}

/// As long as 32 bits hold the number of bytes, the header gives the length of what follows each
/// of its two lengths, and the rates.
pub proof fn lemma_header_lengths(samples: Seq<i16>, sample_rate: u32)
    requires
        in_range(samples, sample_rate),
        2 * samples.len() <= u32::MAX,
    ensures
        ({
            let bytes = file(samples, sample_rate);
            &&& bytes.len() == HEADER_LEN + 2 * samples.len()
            &&& read32(bytes, 4) + 8 == bytes.len()
            &&& read32(bytes, 40) + HEADER_LEN == bytes.len()
            &&& read32(bytes, 24) == sample_rate
            &&& read32(bytes, 28) == 2 * sample_rate
        }),
{
    lemma_pcm(samples, 0, 0);
    let len = data_len(samples);
    let head = header(len, sample_rate);
    let bytes = file(samples, sample_rate);
    lemma_riff_chunk(len);
    lemma_format_chunk(sample_rate);
    lemma_data_chunk(len);
    assert(head.len() == HEADER_LEN);
    assert(bytes.take(head.len() as int) =~= head);
    let riff = riff_chunk(len);
    let format = format_chunk(sample_rate);
    let data = data_chunk(len);
    assert(head.subrange(4, 8) =~= riff.subrange(4, 8));
    assert(head.subrange(24, 28) =~= format.subrange(12, 16));
    assert(head.subrange(28, 32) =~= format.subrange(16, 20));
    assert(head.subrange(40, 44) =~= data.subrange(4, 8));
    lemma_field(bytes, head, 4, len + 36);
    lemma_field(bytes, head, 24, sample_rate as int);
    lemma_field(bytes, head, 28, sample_rate * 2);
    lemma_field(bytes, head, 40, len);
}

proof fn lemma_riff_chunk(len: int)
    ensures
        riff_chunk(len).len() == 12,
        riff_chunk(len).subrange(4, 8) == le32(len + 36),
{
    reveal(riff_chunk);
    lemma_le_len(len + 36);
    assert(riff_chunk(len).subrange(4, 8) =~= le32(len + 36));
}

proof fn lemma_format_chunk(sample_rate: u32)
    ensures
        format_chunk(sample_rate).len() == 24,
        format_chunk(sample_rate).subrange(12, 16) == le32(sample_rate as int),
        format_chunk(sample_rate).subrange(16, 20) == le32(sample_rate * 2),
{
    reveal(format_chunk);
    lemma_le_len(1);
    lemma_le_len(2);
    lemma_le_len(16);
    lemma_le_len(sample_rate as int);
    lemma_le_len(sample_rate * 2);
    let front = seq![0x66u8, 0x6D, 0x74, 0x20] + le32(16) + le16(1) + le16(1);
    let a = le32(sample_rate as int);
    let b = le32(sample_rate * 2);
    let rest = le16(2) + le16(16);
    assert(front.len() == 12);
    assert(format_chunk(sample_rate) =~= front + a + b + rest);
    assert((front + a + b + rest).subrange(12, 16) =~= a);
    assert((front + a + b + rest).subrange(16, 20) =~= b);
}

proof fn lemma_data_chunk(len: int)
    ensures
        data_chunk(len).len() == 8,
        data_chunk(len).subrange(4, 8) == le32(len),
{
    reveal(data_chunk);
    lemma_le_len(len);
    assert(data_chunk(len).subrange(4, 8) =~= le32(len));
}

proof fn lemma_field(bytes: Seq<u8>, head: Seq<u8>, at: int, v: int)
    requires
        0 <= at,
        at + 4 <= head.len() <= bytes.len(),
        bytes.take(head.len() as int) == head,
        head.subrange(at, at + 4) == le32(v),
        0 <= v <= u32::MAX,
    ensures
        read32(bytes, at) == v,
{
    lemma_le_len(v);
    let field = head.subrange(at, at + 4);
    assert forall|k: int| 0 <= k < 4 implies bytes[at + k] == #[trigger] field[k] by {
        assert(bytes[at + k] == bytes.take(head.len() as int)[at + k]);
    }
    assert(bytes[at] == field[0]);
    lemma_le32(v);
}

proof fn lemma_le32(v: int)
    requires
        0 <= v <= u32::MAX,
    ensures
        read32(le32(v), 0) == v,
{
    reveal(le32);
}

proof fn lemma_le_len(v: int)
    ensures
        le16(v).len() == 2,
        le32(v).len() == 4,
{
    reveal(le16);
    reveal(le32);
}

/// The names and the other numbers of the header: plain numbers of 16 bits, one channel, two bytes
/// for every sample.
pub proof fn lemma_header_fields(samples: Seq<i16>, sample_rate: u32)
    ensures
        ({
            let bytes = file(samples, sample_rate);
            &&& bytes.subrange(0, 4) == seq![0x52u8, 0x49, 0x46, 0x46]
            &&& bytes.subrange(8, 12) == seq![0x57u8, 0x41, 0x56, 0x45]
            &&& bytes.subrange(12, 16) == seq![0x66u8, 0x6D, 0x74, 0x20]
            &&& read32(bytes, 16) == 16
            &&& read16(bytes, 20) == 1
            &&& read16(bytes, 22) == 1
            &&& read16(bytes, 32) == 2
            &&& read16(bytes, 34) == 16
            &&& bytes.subrange(36, 40) == seq![0x64u8, 0x61, 0x74, 0x61]
        }),
{
    let len = data_len(samples);
    let bytes = file(samples, sample_rate);
    let (riff, format, data) = (riff_chunk(len), format_chunk(sample_rate), data_chunk(len));
    lemma_riff_chunk(len);
    lemma_format_chunk(sample_rate);
    lemma_data_chunk(len);
    assert(forall|k: int| 0 <= k < 12 ==> #[trigger] bytes[k] == riff[k]);
    assert forall|k: int| 12 <= k < 36 implies #[trigger] bytes[k] == format[k - 12] by {}
    assert forall|k: int| 36 <= k < 44 implies #[trigger] bytes[k] == data[k - 36] by {}
    lemma_le_len(1);
    lemma_le_len(2);
    lemma_le_len(16);
    lemma_le_len(len);
    lemma_le_len(len + 36);
    lemma_le_len(sample_rate as int);
    lemma_le_len(sample_rate * 2);
    assert(riff.subrange(0, 4) =~= seq![0x52u8, 0x49, 0x46, 0x46] && riff.subrange(8, 12) =~= seq![
        0x57u8,
        0x41,
        0x56,
        0x45,
    ]) by {
        reveal(riff_chunk);
    }
    assert(format.subrange(0, 4) =~= seq![0x66u8, 0x6D, 0x74, 0x20] && format.subrange(4, 8)
        =~= le32(16) && format.subrange(8, 10) =~= le16(1) && format.subrange(10, 12) =~= le16(1)
        && format.subrange(20, 22) =~= le16(2) && format.subrange(22, 24) =~= le16(16)) by {
        reveal(format_chunk);
    }
    assert(data.subrange(0, 4) =~= seq![0x64u8, 0x61, 0x74, 0x61]) by {
        reveal(data_chunk);
    }
    assert(bytes.subrange(0, 4) =~= riff.subrange(0, 4));
    assert(bytes.subrange(8, 12) =~= riff.subrange(8, 12));
    assert(bytes.subrange(12, 16) =~= format.subrange(0, 4));
    assert(bytes.subrange(36, 40) =~= data.subrange(0, 4));
    lemma_le32(16);
    assert forall|k: int| 0 <= k < 4 implies bytes[16 + k] == #[trigger] le32(16)[k] by {
        assert(format.subrange(4, 8)[k] == format[4 + k]);
    }
    assert(bytes[16] == le32(16)[0] && bytes[17] == le32(16)[1] && bytes[18] == le32(16)[2]
        && bytes[19] == le32(16)[3]);
    lemma_short(bytes, format, 8, 1);
    lemma_short(bytes, format, 10, 1);
    lemma_short(bytes, format, 20, 2);
    lemma_short(bytes, format, 22, 16);
}

/// A number of 16 bits in the part of the header that describes the samples.
proof fn lemma_short(bytes: Seq<u8>, format: Seq<u8>, at: int, v: int)
    requires
        0 <= at <= 22,
        format.len() == 24,
        forall|k: int| 12 <= k < 36 ==> #[trigger] bytes[k] == format[k - 12],
        format.subrange(at, at + 2) == le16(v),
        0 <= v < 256,
    ensures
        read16(bytes, 12 + at) == v,
{
    reveal(le16);
    assert(format.subrange(at, at + 2)[0] == format[at]);
    assert(format.subrange(at, at + 2)[1] == format[at + 1]);
    assert(bytes[12 + at] == format[12 + at - 12]);
    assert(bytes[12 + at + 1] == format[12 + at + 1 - 12]);
}

} // verus!
