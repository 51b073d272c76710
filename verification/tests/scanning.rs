use cleanax::classify::{Config, Reason, Verdict};
use cleanax::error::Error;
use cleanax::scan::{clean, inspect, select, survey, FileEntry};
use image::{DynamicImage, GrayImage, ImageOutputFormat, RgbImage};

fn png(width: u32, height: u32, samples: Vec<u8>) -> Vec<u8> {
    let image = DynamicImage::ImageRgb8(RgbImage::from_raw(width, height, samples).unwrap());
    let mut bytes: Vec<u8> = Vec::new();
    match image.write_to(&mut bytes, ImageOutputFormat::Png) {
        Ok(()) => bytes,
        Err(e) => panic!("not encoded: {:?}", e),
    }
}

fn noise(len: usize) -> Vec<u8> {
    let mut state: u32 = 2463534242;
    let mut out: Vec<u8> = Vec::new();
    for _ in 0..len {
        state ^= state << 13;
        state ^= state >> 17;
        state ^= state << 5;
        out.push((state >> 16) as u8);
    }
    out
}

/// An entry as the caller makes it: the contents are decoded, and whatever
/// goes wrong counts as a decode failure.
fn entry(path: &str, contents: Option<Vec<u8>>) -> FileEntry {
    let loaded = match contents {
        Some(bytes) => match image::load_from_memory(&bytes) {
            Ok(image) => Ok(image),
            Err(_) => Err(Error::DecodeFailure),
        },
        None => Err(Error::DecodeFailure),
    };
    FileEntry { path: path.to_string(), loaded }
}

#[test]
fn black_noise_and_corrupt() {
    let listing = Some(vec![
        entry("corpus/black.png", Some(png(100, 100, vec![0; 30000]))),
        entry("corpus/noise.png", Some(png(100, 100, noise(30000)))),
        entry("corpus/corrupt.png", Some(b"not an image at all".to_vec())),
    ]);
    let doomed = clean(&listing, &Config::default()).unwrap();
    assert_eq!(doomed, vec!["corpus/black.png".to_string(), "corpus/corrupt.png".to_string()]);
}

#[test]
fn empty_directory() {
    assert_eq!(clean(&Some(vec![]), &Config::default()), Ok(vec![]));
    assert_eq!(clean(&Some(vec![]), &Config::known_bad_colors()), Ok(vec![]));
}

#[test]
fn directory_that_cannot_be_listed() {
    assert_eq!(clean(&None, &Config::default()), Err(Error::DirectoryUnreadable));
    assert_eq!(clean(&None, &Config::known_bad_colors()), Err(Error::DirectoryUnreadable));
}

/// Forty files: lively, unreadable, corrupt and black in turn.
fn mixed() -> (Vec<FileEntry>, Vec<String>) {
    let lively = png(20, 20, noise(1200));
    let black = png(20, 20, vec![0; 1200]);
    let mut entries: Vec<FileEntry> = Vec::new();
    let mut expected: Vec<String> = Vec::new();
    for i in 0..40 {
        let path = format!("dir/{}.png", i);
        match i % 4 {
            0 => entries.push(entry(&path, Some(lively.clone()))),
            1 => {
                entries.push(entry(&path, None));
                expected.push(path);
            }
            2 => {
                entries.push(entry(&path, Some(vec![i as u8; 10])));
                expected.push(path);
            }
            _ => {
                entries.push(entry(&path, Some(black.clone())));
                expected.push(path);
            }
        }
    }
    (entries, expected)
}

#[test]
fn a_failure_does_not_touch_the_other_files() {
    let (entries, expected) = mixed();
    let doomed = clean(&Some(entries), &Config::default()).unwrap();
    assert_eq!(doomed, expected);
    let mut once = doomed.clone();
    once.sort();
    once.dedup();
    assert_eq!(once.len(), doomed.len());
}

#[test]
fn cleaning_in_batches_selects_the_same_files() {
    let (_, expected) = mixed();
    for batch in [1usize, 3, 7, 32, 40, 41] {
        let (mut entries, _) = mixed();
        let mut doomed: Vec<String> = Vec::new();
        while !entries.is_empty() {
            let rest = entries.split_off(batch.min(entries.len()));
            doomed.extend(clean(&Some(entries), &Config::default()).unwrap());
            entries = rest;
        }
        assert_eq!(doomed, expected);
    }
}

#[test]
fn inspect_gives_the_reason() {
    let config = Config::default();
    assert_eq!(inspect(&entry("a.png", None), &config), Verdict::Delete(Reason::DecodeFailure));
    assert_eq!(
        inspect(&entry("a.png", Some(vec![1, 2, 3])), &config),
        Verdict::Delete(Reason::DecodeFailure)
    );
    assert_eq!(
        inspect(&entry("a.png", Some(png(2, 2, vec![7; 12]))), &config),
        Verdict::Delete(Reason::SolidColor)
    );
    assert_eq!(
        inspect(&entry("a.png", Some(png(2, 2, vec![255; 12]))), &Config::known_bad_colors()),
        Verdict::Delete(Reason::TargetColorMatch)
    );
    assert_eq!(inspect(&entry("a.png", Some(png(8, 8, noise(192)))), &config), Verdict::Keep);
    let grey = FileEntry {
        path: "grey.png".to_string(),
        loaded: Ok(DynamicImage::ImageLuma8(GrayImage::from_raw(1, 1, vec![0]).unwrap())),
    };
    assert_eq!(inspect(&grey, &config), Verdict::Delete(Reason::UnsupportedLayout));
}

#[test]
fn select_keeps_the_order_of_the_entries() {
    let entries = vec![entry("c", None), entry("a", None), entry("b", None), entry("d", None)];
    let verdicts = vec![
        Verdict::Delete(Reason::SolidColor),
        Verdict::Keep,
        Verdict::Delete(Reason::DecodeFailure),
        Verdict::Delete(Reason::UnsupportedLayout),
    ];
    assert_eq!(select(&entries, &verdicts), vec!["c".to_string(), "b".to_string(), "d".to_string()]);
    assert_eq!(select(&entries, &vec![Verdict::Keep; 4]), Vec::<String>::new());
    assert_eq!(select(&vec![], &vec![]), Vec::<String>::new());
}

#[test]
fn survey_gives_one_verdict_for_every_entry() {
    let entries = vec![
        entry("a.png", Some(png(4, 4, vec![3; 48]))),
        entry("b.png", None),
        entry("c.png", Some(png(8, 8, noise(192)))),
        entry("d.png", Some(vec![0; 48])),
    ];
    let config = Config::default();
    let verdicts = survey(&entries, &config);
    assert_eq!(
        verdicts,
        vec![
            Verdict::Delete(Reason::SolidColor),
            Verdict::Delete(Reason::DecodeFailure),
            Verdict::Keep,
            Verdict::Delete(Reason::DecodeFailure),
        ]
    );
    for (entry, verdict) in entries.iter().zip(verdicts.iter()) {
        assert_eq!(inspect(entry, &config), *verdict);
    }
    assert_eq!(select(&entries, &verdicts), clean(&Some(entries), &config).unwrap());
    assert_eq!(survey(&vec![], &config), vec![]);
}
