use fmt_runner::Edit;

#[test]
fn test_edit_creation() {
    let edit = Edit::new((0, 10), "new content".to_string());
    assert_eq!(edit.range, (0, 10));
    assert_eq!(edit.content, Some("new content".to_string()));
}

#[test]
fn test_edit_equality() {
    let edit1 = Edit::new((0, 5), "test".to_string());
    let edit2 = Edit::new((0, 5), "test".to_string());
    assert_eq!(edit1, edit2);
}

#[test]
fn test_edit_target_creation() {
    let target: Edit<String> = Edit::with_items((0, 20), vec!["item1".to_string(), "item2".to_string()]);
    assert_eq!(target.range, (0, 20));
    assert_eq!(target.items.len(), 2);
}

#[test]
fn test_edit_with_content_resolves_target() {
    let target: Edit<String> = Edit::with_items((3, 7), vec!["x".to_string()]);
    let resolved = target.with_content("done".to_string());
    assert_eq!(resolved.range, (3, 7));
    assert_eq!(resolved.content, Some("done".to_string()));
    assert!(resolved.items.is_empty());
}

#[test]
fn test_edit_inequality_on_range() {
    let edit1 = Edit::new((0, 5), "test".to_string());
    let edit2 = Edit::new((1, 5), "test".to_string());
    assert!(edit1 != edit2);
}
