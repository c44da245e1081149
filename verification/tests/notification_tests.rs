use portweave::notification::{copy_utf16, wide_null};

#[test]
fn notification_text_is_null_terminated_without_splitting_surrogates() {
    let mut target = [0_u16; 5];
    copy_utf16(&mut target, "ab😀c");
    assert_eq!(String::from_utf16_lossy(&target[..4]), "ab😀");
    assert_eq!(target[4], 0);

    let mut short = [0_u16; 4];
    copy_utf16(&mut short, "ab😀");
    assert_eq!(String::from_utf16_lossy(&short[..2]), "ab");
    assert_eq!(short[2], 0);
}

#[test]
fn copying_leaves_the_rest_untouched() {
    let mut target = [7_u16; 3];
    copy_utf16(&mut target, "xyz");
    assert_eq!(target, [b'x' as u16, b'y' as u16, 7]);
    let mut empty: [u16; 0] = [];
    copy_utf16(&mut empty, "a");
}

#[test]
fn wide_strings_end_with_nul() {
    assert_eq!(wide_null("STATIC"), "STATIC\0".encode_utf16().collect::<Vec<_>>());
    assert_eq!(wide_null("😀"), vec![0xD83D, 0xDE00, 0]);
    assert_eq!(wide_null(""), vec![0]);
}
