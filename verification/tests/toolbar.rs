use collab_core::toolbar::Toolbar;

#[test]
fn new_toolbar_is_empty() {
    assert!(Toolbar::new().items().is_empty());
}
