use nemotron_mlx::opencc::{S2twpConverter, to_traditional, traditional_or_unchanged};

#[test]
fn converts_simplified_to_taiwan_traditional_with_phrases() {
    assert_eq!(to_traditional("软件"), "軟體");
    assert_eq!(to_traditional("信息"), "資訊");
    assert_eq!(to_traditional("里面"), "裡面");
    assert_eq!(to_traditional("鼠标"), "滑鼠");
    assert_eq!(to_traditional("这是一个测试"), "這是一個測試");
}

#[test]
fn is_idempotent_on_traditional_and_passes_through_ascii() {
    assert_eq!(to_traditional("軟體與資訊"), "軟體與資訊");
    assert_eq!(to_traditional("hello, world 123"), "hello, world 123");
    assert_eq!(to_traditional(""), "");
}

#[test]
fn a_loaded_converter_converts_and_none_leaves_text() {
    let converter = S2twpConverter::load().expect("embedded s2twp configuration");
    assert_eq!(converter.convert("软件"), "軟體");
    assert_eq!(traditional_or_unchanged(Some(&converter), "信息"), "資訊");
    assert_eq!(traditional_or_unchanged(None, "信息"), "信息");
}
