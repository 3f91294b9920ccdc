use tokio_im::common::text::same_text;

#[test]
fn same_text_compares_whole_texts() {
    assert!(same_text("", ""));
    assert!(same_text("zhangsan", "zhangsan"));
    assert!(same_text("你好", "你好"));
    assert!(!same_text("zhangsan", "zhangsa"));
    assert!(!same_text("zhangsa", "zhangsan"));
    assert!(!same_text("lisi", "Lisi"));
    assert!(!same_text("lisi", "lis1"));
    assert!(!same_text("", " "));
    assert!(!same_text("你好", "你们"));
}
