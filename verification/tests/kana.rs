use jma_station_master::kana::to_katakana;

#[test]
fn converts_plain_hiragana() {
    assert_eq!(to_katakana("こうのしやまかわ"), "コウノシヤマカワ");
}

#[test]
fn converts_small_kana_and_voiced_marks() {
    assert_eq!(
        to_katakana("しんしのつむらだいよんじゅうななせん"),
        "シンシノツムラダイヨンジュウナナセン"
    );
    assert_eq!(to_katakana("こうのしばんなぐろ"), "コウノシバンナグロ");
}

#[test]
fn leaves_katakana_and_other_characters_untouched() {
    assert_eq!(to_katakana("コウノシヤマカワ"), "コウノシヤマカワ");
    assert_eq!(to_katakana("ABC 123 甲野市"), "ABC 123 甲野市");
}

#[test]
fn converts_iteration_marks() {
    assert_eq!(to_katakana("ゝゞ"), "ヽヾ");
}

#[test]
fn is_idempotent() {
    let once = to_katakana("こうのしやまかわ");
    assert_eq!(to_katakana(&once), once);
}

#[test]
fn the_ends_of_the_hiragana_block_convert() {
    // U+3041 and U+3096 are the first and last hiragana that have a katakana twin.
    assert_eq!(to_katakana("\u{3041}\u{3096}"), "\u{30A1}\u{30F6}");
    // U+3040 and U+3097 are outside the block and stay as they are.
    assert_eq!(to_katakana("\u{3040}\u{3097}"), "\u{3040}\u{3097}");
}
