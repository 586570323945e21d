use rank_wav_rs::scan::{is_wav_file_name, walk_depth};

#[test]
fn wav_names_in_any_case() {
    assert!(is_wav_file_name(b"test1.wav"));
    assert!(is_wav_file_name(b"test2.WAV"));
    assert!(is_wav_file_name(b"mixed.WaV"));
    assert!(is_wav_file_name(b"..wav"));
    assert!(is_wav_file_name(b"a.b.wav"));
}

#[test]
fn other_names_are_skipped() {
    assert!(!is_wav_file_name(b"ignore.txt"));
    assert!(!is_wav_file_name(b".wav"));
    assert!(!is_wav_file_name(b"wav"));
    assert!(!is_wav_file_name(b"a.wav.txt"));
    assert!(!is_wav_file_name(b"a.wave"));
    assert!(!is_wav_file_name(b"a.wa"));
    assert!(!is_wav_file_name(b""));
    assert!(!is_wav_file_name(b".."));
    assert!(!is_wav_file_name(b"a."));
}

#[test]
fn walk_depths() {
    assert_eq!(walk_depth(false), 1);
    assert_eq!(walk_depth(true), usize::MAX);
}

#[test]
fn wav_names_are_picked_out_of_a_listing() {
    let names: [&[u8]; 3] = [b"test1.wav", b"test2.WAV", b"ignore.txt"];
    let found = names.iter().filter(|n| is_wav_file_name(n)).count();
    assert_eq!(found, 2);
}
