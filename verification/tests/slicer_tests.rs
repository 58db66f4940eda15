use ims2tif::config::Config;
use ims2tif::slicer::ImageSlicer;
use ims2tif::slicer::chunk_count;

#[test]
fn spans_exact_divisible() {
    // An extent exactly divisible by the slice size yields full chunks and
    // no zero-depth trailing chunk.
    let conf = Config::new();
    let mut slicer = ImageSlicer::new(32, 0, 0, &conf);
    assert_eq!(slicer.next_span(64), Some((0, 32)));
    assert_eq!(slicer.next_span(64), Some((32, 64)));
    assert_eq!(slicer.next_span(64), None);
    assert_eq!(slicer.next_span(64), None);
}

#[test]
fn spans_with_tail() {
    // ceil(70 / 32) = 3 chunks; the last has depth 70 mod 32 = 6.
    let conf = Config::new();
    let mut slicer = ImageSlicer::new(32, 0, 0, &conf);
    assert_eq!(slicer.next_span(70), Some((0, 32)));
    assert_eq!(slicer.next_span(70), Some((32, 64)));
    assert_eq!(slicer.next_span(70), Some((64, 70)));
    assert_eq!(slicer.next_span(70), None);
    assert_eq!(chunk_count(70, 32), 3);
}

#[test]
fn span_past_extent_ends_quietly() {
    // A read requested at or past the axis extent ends the sequence; no
    // error surfaces to the caller.
    let conf = Config::new();
    let mut slicer = ImageSlicer::new(32, 0, 0, &conf);
    assert_eq!(slicer.next_span(0), None);
    let mut other = ImageSlicer::new(8, 0, 0, &conf);
    assert_eq!(other.next_span(5), Some((0, 5)));
    assert_eq!(other.next_span(5), None);
}

#[test]
fn chunk_count_cases() {
    assert_eq!(chunk_count(0, 32), 0);
    assert_eq!(chunk_count(1, 32), 1);
    assert_eq!(chunk_count(32, 32), 1);
    assert_eq!(chunk_count(33, 32), 2);
    assert_eq!(chunk_count(64, 32), 2);
    assert_eq!(chunk_count(40, 32), 2);
}

#[test]
fn slicer_dataset_path() {
    let conf = Config::new();
    let slicer = ImageSlicer::new(32, 2, 1, &conf);
    assert_eq!(
        slicer.dataset_path(),
        "DataSet/ResolutionLevel 2/TimePoint 0/Channel 1/Data"
    );
}
