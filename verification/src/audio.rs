use vstd::prelude::*;

verus! {

/// The binary format of an audio segment. Segments may be concatenated
/// bit-compatibly only when all three fields agree.
#[derive(Debug, Clone, Copy, PartialEq, Eq, Structural)]
pub struct AudioSpec {
    /// Interleaved channel count.
    pub channels: u16,
    /// Samples per second.
    pub sample_rate: u32,
    /// Bits per stored sample.
    pub bits_per_sample: u16,
}

/// One subtask's completed audio: its format and its samples in order.
#[derive(Debug, Clone, PartialEq, Eq)]
pub struct AudioSegment {
    /// The segment's binary format.
    pub format: AudioSpec,
    /// The decoded samples, in playback order.
    pub samples: Vec<i16>,
}

/// A later segment's format differs from the first segment's, so the
/// segments cannot be concatenated without corrupting the output.
#[derive(Debug, Clone, Copy, PartialEq, Eq)]
pub struct FormatMismatch {
    /// Position of the first segment whose format differs.
    pub index: usize,
}

/// The sample sequences of the segments, in segment order.
pub open spec fn sample_seqs(segs: Seq<AudioSegment>) -> Seq<Seq<i16>> {
    segs.map_values(|s: AudioSegment| s.samples@)
}

/// All sample sequences joined in order.
pub open spec fn concat_samples(s: Seq<Seq<i16>>) -> Seq<i16>
    decreases s.len(),
{
    if s.len() == 0 {
        Seq::empty()
    } else {
        s.first() + concat_samples(s.drop_first())
    }
}

/// Joining one sample sequence reproduces it exactly: no sample is
/// added, dropped or changed.
pub proof fn lemma_concat_one(a: Seq<i16>)
    ensures
        concat_samples(seq![a]) == a,
{
    assert(seq![a].drop_first() =~= Seq::<Seq<i16>>::empty());
    assert(concat_samples(Seq::<Seq<i16>>::empty()) == Seq::<i16>::empty());
    assert(seq![a].first() == a);
    assert(a + Seq::<i16>::empty() =~= a);
}

/// Joining three sample sequences concatenates them in order.
pub proof fn lemma_concat_three(a: Seq<i16>, b: Seq<i16>, c: Seq<i16>)
    ensures
        concat_samples(seq![a, b, c]) == a + b + c,
{
    lemma_concat_one(c);
    assert(seq![b, c].drop_first() =~= seq![c]);
    assert(concat_samples(seq![b, c]) == b + concat_samples(seq![c]));
    assert(seq![a, b, c].drop_first() =~= seq![b, c]);
    assert(concat_samples(seq![a, b, c]) == a + (b + c));
    assert(a + (b + c) =~= a + b + c);
}

/// Appends all of `src` to `out`.
fn push_samples(out: &mut Vec<i16>, src: &Vec<i16>)
    ensures
        final (out)@ == old(out)@ + src@,
{
    let mut j: usize = 0;
    proof {
        assert(out@ + src@.subrange(0, 0) =~= out@);
    }
    while j < src.len()
        invariant
            j <= src@.len(),
            out@ == old(out)@ + src@.subrange(0, j as int),
        decreases src@.len() - j,
    {
        out.push(src[j]);
        proof {
            assert(old(out)@ + src@.subrange(0, j as int + 1) =~= (old(out)@ + src@.subrange(
                0,
                j as int,
            )).push(src@[j as int]));
        }
        j = j + 1;
    }
    proof {
        assert(src@.subrange(0, src@.len() as int) =~= src@);
    }
}

/// Concatenates the segments' samples in segment order, adopting the
/// first segment's format for the whole stream; `None` when there is
/// nothing to join. Formats are not compared: this is the raw
/// concatenation that `reassemble` guards with its format check.
pub fn concat_segments(segments: &Vec<AudioSegment>) -> (r: Option<AudioSegment>)
    ensures
        (segments@.len() == 0) <==> r is None,
        segments@.len() > 0 ==> (r matches Some(out) && out.format == segments@[0].format
            && out.samples@ == concat_samples(sample_seqs(segments@))),
{
    if segments.len() == 0 {
        return None;
    }
    let format = segments[0].format;
    let ghost seqs = sample_seqs(segments@);
    let mut samples: Vec<i16> = Vec::new();
    let mut i: usize = 0;
    proof {
        assert(seqs.skip(0) =~= seqs);
        assert(samples@ + concat_samples(seqs) =~= concat_samples(seqs));
    }
    while i < segments.len()
        invariant
            i <= segments@.len(),
            seqs == sample_seqs(segments@),
            samples@ + concat_samples(seqs.skip(i as int)) == concat_samples(seqs),
        decreases segments@.len() - i,
    {
        let ghost prev = samples@;
        push_samples(&mut samples, &segments[i].samples);
        proof {
            assert(seqs[i as int] == segments@[i as int].samples@);
            assert(seqs.skip(i as int).first() == seqs[i as int]);
            assert(seqs.skip(i as int).drop_first() =~= seqs.skip(i as int + 1));
            assert(concat_samples(seqs.skip(i as int)) == seqs[i as int] + concat_samples(
                seqs.skip(i as int + 1),
            ));
            assert((prev + seqs[i as int]) + concat_samples(seqs.skip(i as int + 1)) =~= prev + (
            seqs[i as int] + concat_samples(seqs.skip(i as int + 1))));
        }
        i = i + 1;
    }
    proof {
        assert(seqs.skip(segments@.len() as int) =~= Seq::<Seq<i16>>::empty());
        assert(samples@ + Seq::<i16>::empty() =~= samples@);
    }
    Some(AudioSegment { format, samples })
}

/// Reassembles completed segments, in sequence order, into one stream.
///
/// The first segment's format becomes the stream's format; every later
/// segment must match it exactly, and the first one that does not is
/// reported as a `FormatMismatch` instead of being appended with
/// corrupted samples. An empty sequence is no error and yields no
/// stream.
pub fn reassemble(segments: &Vec<AudioSegment>) -> (r: Result<Option<AudioSegment>, FormatMismatch>)
    ensures
        segments@.len() == 0 ==> (r matches Ok(o) && o is None),
        segments@.len() > 0 && (forall|j: int|
            0 < j < segments@.len() ==> (#[trigger] segments@[j]).format == segments@[0].format)
            ==> (r matches Ok(o) && o matches Some(out) && out.format == segments@[0].format
            && out.samples@ == concat_samples(sample_seqs(segments@))),
        (exists|j: int|
            0 < j < segments@.len() && (#[trigger] segments@[j]).format != segments@[0].format)
            ==> (r matches Err(e) && 0 < e.index < segments@.len() && segments@[
        e.index as int].format != segments@[0].format && forall|j: int|
            0 < j < e.index ==> (#[trigger] segments@[j]).format == segments@[0].format),
{
    if segments.len() == 0 {
        return Ok(None);
    }
    let mut k: usize = 1;
    while k < segments.len()
        invariant
            1 <= k <= segments@.len() || segments@.len() == 0,
            forall|j: int|
                0 < j < k ==> (#[trigger] segments@[j]).format == segments@[0].format,
        decreases segments@.len() - k,
    {
        if !(segments[k].format == segments[0].format) {
            return Err(FormatMismatch { index: k });
        }
        k = k + 1;
    }
    Ok(concat_segments(segments))
}

} // verus!
