use rank_wav_rs::rank::{rank_descending, score_key, score_keys};

#[test]
fn highest_key_first() {
    assert_eq!(rank_descending(&[5, 9, 1]), vec![1, 0, 2]);
    assert_eq!(rank_descending(&[-3, -1, -2]), vec![1, 2, 0]);
}

#[test]
fn ties_keep_their_order() {
    assert_eq!(rank_descending(&[2, 7, 2, 7, 2]), vec![1, 3, 0, 2, 4]);
    assert_eq!(rank_descending(&[0, 0, 0]), vec![0, 1, 2]);
}

#[test]
fn empty_and_single() {
    assert_eq!(rank_descending(&[]), Vec::<usize>::new());
    assert_eq!(rank_descending(&[i32::MIN]), vec![0]);
}

#[test]
fn score_keys_follow_total_order() {
    let scores = [-f32::INFINITY, -1.5, -0.0, 0.0, 0.25, 1.0, f32::INFINITY, f32::NAN];
    let keys: Vec<i32> = scores.iter().map(|x| score_key(x.to_bits())).collect();
    for w in keys.windows(2) {
        assert!(w[0] < w[1]);
    }
    for (i, a) in scores.iter().enumerate() {
        for (j, b) in scores.iter().enumerate() {
            assert_eq!(keys[i].cmp(&keys[j]), a.total_cmp(b));
        }
    }
    assert!(score_key((-f32::NAN).to_bits()) < score_key((-f32::INFINITY).to_bits()));
}

#[test]
fn scores_ranked_highest_first() {
    let bits: Vec<u32> = [0.5f32, 0.9, -0.2, 0.9].iter().map(|x| x.to_bits()).collect();
    let keys = score_keys(&bits);
    assert_eq!(rank_descending(&keys), vec![1, 3, 0, 2]);
}
