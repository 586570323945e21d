use rank_wav_rs::output::truncate_file_name;

#[test]
fn long_names_are_shortened() {
    let name = "this-is-a-very-long-filename-that-should-be-truncated.wav";
    let shown = truncate_file_name(name.as_bytes());
    assert_eq!(shown, b"this-is-a-very-long-filenam...".to_vec());
    assert_eq!(shown.len(), 30);
}

#[test]
fn short_names_are_kept() {
    assert_eq!(truncate_file_name(b"test.wav"), b"test.wav".to_vec());
    let thirty = "abcdefghijklmnopqrstuvwxyz.wav";
    assert_eq!(thirty.len(), 30);
    assert_eq!(truncate_file_name(thirty.as_bytes()), thirty.as_bytes().to_vec());
    assert_eq!(truncate_file_name(b""), Vec::<u8>::new());
}
