use g_flite::audio::{concat_segments, reassemble, AudioSegment, AudioSpec};

fn mono44k() -> AudioSpec {
    AudioSpec { channels: 1, sample_rate: 44100, bits_per_sample: 16 }
}

#[test]
fn three_segments_concatenate_in_order() {
    let a = AudioSegment { format: mono44k(), samples: vec![1, 2, 3] };
    let b = AudioSegment { format: mono44k(), samples: vec![4, 5] };
    let c = AudioSegment { format: mono44k(), samples: vec![6] };
    let out = reassemble(&vec![a, b, c]).unwrap().unwrap();
    assert_eq!(out.format, mono44k());
    assert_eq!(out.samples, vec![1, 2, 3, 4, 5, 6]);
}

#[test]
fn single_segment_is_reproduced_exactly() {
    let a = AudioSegment { format: mono44k(), samples: vec![-7, 0, 32767, -32768] };
    let out = reassemble(&vec![a.clone()]).unwrap().unwrap();
    assert_eq!(out.format, a.format);
    assert_eq!(out.samples, a.samples);
}

#[test]
fn empty_sequence_is_no_error_and_no_stream() {
    let r = reassemble(&Vec::new());
    assert!(matches!(r, Ok(None)));
}

#[test]
fn first_mismatching_segment_is_reported() {
    let a = AudioSegment { format: mono44k(), samples: vec![1] };
    let b = AudioSegment {
        format: AudioSpec { channels: 2, sample_rate: 44100, bits_per_sample: 16 },
        samples: vec![2],
    };
    let c = AudioSegment {
        format: AudioSpec { channels: 1, sample_rate: 8000, bits_per_sample: 16 },
        samples: vec![3],
    };
    let r = reassemble(&vec![a, b, c]);
    assert_eq!(r.unwrap_err().index, 1);
}

#[test]
fn unchecked_concatenation_adopts_first_format() {
    let a = AudioSegment { format: mono44k(), samples: vec![1] };
    let b = AudioSegment {
        format: AudioSpec { channels: 2, sample_rate: 8000, bits_per_sample: 16 },
        samples: vec![2],
    };
    let out = concat_segments(&vec![a, b]).unwrap();
    assert_eq!(out.format, mono44k());
    assert_eq!(out.samples, vec![1, 2]);
}
