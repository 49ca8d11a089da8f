use std::io::Write;

use als_clips::aggregate::{aggregate, AlsParseResult};
use als_clips::clip::{AudioClip, RawClip};
use als_clips::error::AlsError;
use als_clips::gzip::{decode_text, inflate};
use als_clips::scan::{scan_file, scan_text};

fn gzip(text: &[u8]) -> Vec<u8> {
    let mut encoder = flate2::write::GzEncoder::new(Vec::new(), flate2::Compression::default());
    encoder.write_all(text).unwrap();
    encoder.finish().unwrap()
}

fn clips_of(records: Vec<RawClip>) -> Result<Vec<AudioClip>, AlsError> {
    let mut clips = Vec::new();
    for record in records {
        let start = record.start.parse::<f64>().ok().map(f64::to_bits);
        clips.push(AudioClip::from_raw(record, start)?);
    }
    Ok(clips)
}

fn run(data: &[u8]) -> Result<AlsParseResult, AlsError> {
    aggregate(clips_of(scan_file(data)?)?)
}

fn clip(start: f64, path: &str) -> AudioClip {
    AudioClip { start: start.to_bits(), path: path.to_string() }
}

fn sorted(mut paths: Vec<String>) -> Vec<String> {
    paths.sort();
    paths
}

const TWO_CLIPS: &str = "<?xml version=\"1.0\" encoding=\"UTF-8\"?>\n\
<Ableton>\n\
  <LiveSet>\n\
    <Tracks>\n\
      <AudioTrack>\n\
        <Events>\n\
          <AudioClip Id=\"0\">\n\
            <CurrentStart Value=\"1.5\" />\n\
            <SampleRef><FileRef><Path Value=\"kick.wav\" /></FileRef></SampleRef>\n\
          </AudioClip>\n\
          <AudioClip Id=\"1\">\n\
            <CurrentStart Value=\"0.25\" />\n\
            <SampleRef><FileRef><Path Value=\"snare.wav\" /></FileRef></SampleRef>\n\
          </AudioClip>\n\
        </Events>\n\
      </AudioTrack>\n\
    </Tracks>\n\
  </LiveSet>\n\
</Ableton>\n";

#[test]
fn two_clips_come_out_by_start() {
    let result = run(&gzip(TWO_CLIPS.as_bytes())).unwrap();
    assert_eq!(result.audio_clips, vec![clip(0.25, "snare.wav"), clip(1.5, "kick.wav")]);
    assert_eq!(sorted(result.paths), vec!["kick.wav".to_string(), "snare.wav".to_string()]);
}

#[test]
fn scan_keeps_the_order_of_the_walk() {
    let records = scan_file(&gzip(TWO_CLIPS.as_bytes())).unwrap();
    assert_eq!(
        records,
        vec![
            RawClip { start: "1.5".to_string(), path: "kick.wav".to_string() },
            RawClip { start: "0.25".to_string(), path: "snare.wav".to_string() },
        ]
    );
}

#[test]
fn clip_without_sample_ref_has_empty_path() {
    let xml = "<Set><AudioClip><CurrentStart Value=\"4\"/></AudioClip></Set>";
    let result = run(&gzip(xml.as_bytes())).unwrap();
    assert_eq!(result.audio_clips, vec![clip(4.0, "")]);
    assert_eq!(result.paths, vec![String::new()]);
}

#[test]
fn invalid_gzip_is_refused() {
    assert_eq!(scan_file(b"this is not a gzip stream"), Err(AlsError::Gzip));
    assert_eq!(scan_file(b""), Err(AlsError::Gzip));
    assert_eq!(inflate(TWO_CLIPS.as_bytes()), Err(AlsError::Gzip));
}

#[test]
fn truncated_gzip_is_refused() {
    let data = gzip(TWO_CLIPS.as_bytes());
    assert_eq!(inflate(&data[..data.len() / 2]), Err(AlsError::Gzip));
}

#[test]
fn same_path_is_listed_once() {
    let xml = "<Set>\
        <AudioClip><CurrentStart Value=\"8\"/>\
          <SampleRef><FileRef><Path Value=\"loop.wav\"/></FileRef></SampleRef></AudioClip>\
        <AudioClip><CurrentStart Value=\"2\"/>\
          <SampleRef><FileRef><Path Value=\"loop.wav\"/></FileRef></SampleRef></AudioClip>\
        </Set>";
    let result = run(&gzip(xml.as_bytes())).unwrap();
    assert_eq!(result.paths, vec!["loop.wav".to_string()]);
    assert_eq!(result.audio_clips, vec![clip(2.0, "loop.wav"), clip(8.0, "loop.wav")]);
}

#[test]
fn inflate_gives_the_text_back() {
    let data = gzip(TWO_CLIPS.as_bytes());
    assert_ne!(data, TWO_CLIPS.as_bytes());
    assert_eq!(inflate(&data), Ok(TWO_CLIPS.to_string()));
}

#[test]
fn inflate_reads_all_members() {
    let (head, tail) = TWO_CLIPS.split_at(100);
    let mut data = gzip(head.as_bytes());
    data.extend_from_slice(&gzip(tail.as_bytes()));
    assert_eq!(inflate(&data), Ok(TWO_CLIPS.to_string()));
    let result = run(&data).unwrap();
    assert_eq!(result.audio_clips.len(), 2);
}

#[test]
fn inflated_bytes_must_be_text() {
    assert_eq!(inflate(&gzip(&[0x3c, 0x61, 0x2f, 0x3e, 0xff, 0xfe])), Err(AlsError::Utf8));
    assert_eq!(decode_text(vec![0x3c, 0x61, 0x2f, 0x3e, 0xff, 0xfe]), Err(AlsError::Utf8));
    assert_eq!(decode_text(vec![0xc3, 0xa4, 0x3c, 0xe2, 0x82, 0xac]), Ok("\u{e4}<\u{20ac}".to_string()));
    assert_eq!(decode_text(vec![0xed, 0xa0, 0x80]), Err(AlsError::Utf8));
    assert_eq!(decode_text(vec![0xc0, 0xaf]), Err(AlsError::Utf8));
    assert_eq!(decode_text(Vec::new()), Ok(String::new()));
}

#[test]
fn malformed_xml_is_refused() {
    assert_eq!(scan_file(&gzip(b"<Set><AudioClip></Set>")), Err(AlsError::Xml));
    assert_eq!(scan_text("no markup at all"), Err(AlsError::Xml));
    assert_eq!(scan_text(""), Err(AlsError::Xml));
}

#[test]
fn missing_value_is_refused() {
    let no_path_value = "<Set><AudioClip><CurrentStart Value=\"1\"/>\
        <SampleRef><FileRef><Path/></FileRef></SampleRef></AudioClip></Set>";
    assert_eq!(scan_text(no_path_value), Err(AlsError::MissingValue));
    let no_start_value = "<Set><AudioClip><CurrentStart/></AudioClip></Set>";
    assert_eq!(scan_text(no_start_value), Err(AlsError::MissingValue));
    let first_of_two = "<Set><AudioClip><CurrentStart/><CurrentStart Value=\"1\"/>\
        </AudioClip></Set>";
    assert_eq!(scan_text(first_of_two), Err(AlsError::MissingValue));
}

#[test]
fn start_that_is_no_number_is_refused() {
    let xml = "<Set><AudioClip><CurrentStart Value=\"soon\"/></AudioClip></Set>";
    assert_eq!(run(&gzip(xml.as_bytes())).err(), Some(AlsError::InvalidStart));
    let none = "<Set><AudioClip/></Set>";
    assert_eq!(
        scan_text(none),
        Ok(vec![RawClip { start: String::new(), path: String::new() }])
    );
    assert_eq!(run(&gzip(none.as_bytes())).err(), Some(AlsError::InvalidStart));
}

#[test]
fn nan_start_is_refused() {
    let xml = "<Set><AudioClip><CurrentStart Value=\"NaN\"/></AudioClip></Set>";
    assert_eq!(run(&gzip(xml.as_bytes())).err(), Some(AlsError::NanStart));
}

#[test]
fn document_without_clips_gives_nothing() {
    let result = run(&gzip(b"<Set><Tracks/></Set>")).unwrap();
    assert!(result.audio_clips.is_empty());
    assert!(result.paths.is_empty());
}

#[test]
fn same_bytes_give_the_same_output() {
    let data = gzip(TWO_CLIPS.as_bytes());
    let first = run(&data).unwrap();
    let second = run(&data).unwrap();
    assert_eq!(first.audio_clips, second.audio_clips);
    assert_eq!(sorted(first.paths), sorted(second.paths));
}
