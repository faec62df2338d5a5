use tit::tools::Category;

#[test]
fn names_and_order() {
    let all = Category::all();
    assert_eq!(all.len(), 7);
    assert_eq!(all[0].name(), "All Tools");
    assert_eq!(Category::Development.name(), "Development");
    assert!(all.iter().all(|c| !c.name().is_empty()));
}
